//! A Pratt parser from tokens to the syntax tree.
use vstd::prelude::*;
use vstd::string::*;
use crate::ast::{
    Expression, Statement, Program, SpecExpr, SpecStmt, stmt_seq_view, expr_seq_view,
    strings_view, lemma_stmt_seq_push, lemma_expr_seq_push, lemma_strings_push,
};
use crate::lexer::{Lexer, Token, SpecToken, token_debug, tokens_from, lemma_lex_progress, lemma_tokens_from_shape};

verus! {

/// The state of a parse in the model: the position of the current token and
/// the error messages so far.
pub struct PState {
    pub pos: int,
    pub errs: Seq<Seq<char>>,
}

/// Binding strength of the lowest level.
pub open spec fn lowest() -> nat { 0 }

/// Binding strength of prefix operators.
pub open spec fn prefix_level() -> nat { 5 }

/// The token at position `p`; past the end of the tokens it is `Eof`.
pub open spec fn tok(ts: Seq<SpecToken>, p: int) -> SpecToken {
    if 0 <= p < ts.len() {
        ts[p]
    } else {
        SpecToken::Eof
    }
}

/// Whether token `a` is of the kind `b`: any two identifiers match, other
/// tokens match when equal.
pub open spec fn token_is(a: SpecToken, b: SpecToken) -> bool {
    (a is Ident && b is Ident) || a == b
}

/// The binding strength of an infix operator (0 for tokens that are none).
pub open spec fn prec_of(t: SpecToken) -> nat {
    match t {
        SpecToken::Eq | SpecToken::NotEq => 1,
        SpecToken::Lt | SpecToken::Gt => 2,
        SpecToken::Plus | SpecToken::Minus => 3,
        SpecToken::Slash | SpecToken::Asterisk => 4,
        SpecToken::LParen => 6,
        _ => 0,
    }
}

/// The number of tokens left from position `p`.
pub open spec fn rem(ts: Seq<SpecToken>, p: int) -> nat {
    if p < ts.len() {
        (ts.len() - p) as nat
    } else {
        0
    }
}

/// Whether `b` begins with all of `a`: messages are only ever added.
pub open spec fn extends(a: Seq<Seq<char>>, b: Seq<Seq<char>>) -> bool {
    &&& a.len() <= b.len()
    &&& forall|k: int| 0 <= k < a.len() ==> #[trigger] b[k] == a[k]
}

/// Moves to the next token (staying put once past the end).
pub open spec fn adv(ts: Seq<SpecToken>, st: PState) -> PState {
    PState { pos: if st.pos < ts.len() { st.pos + 1 } else { st.pos }, errs: st.errs }
}

/// Whether the token after the current one is of kind `t`.
pub open spec fn peek_is(ts: Seq<SpecToken>, st: PState, t: SpecToken) -> bool {
    token_is(tok(ts, st.pos + 1), t)
}

/// The message recorded when the next token is not the one expected.
pub open spec fn peek_error_msg(expected: SpecToken, got: SpecToken) -> Seq<char> {
    "expected next token to be "@ + token_debug(expected) + ", got "@ + token_debug(got)
        + " instead"@
}

/// Moves to the next token when it is of kind `t`; otherwise records an error.
pub open spec fn expect_peek(ts: Seq<SpecToken>, st: PState, t: SpecToken) -> (bool, PState) {
    if peek_is(ts, st, t) {
        (true, adv(ts, st))
    } else {
        (false, PState { pos: st.pos, errs: st.errs.push(peek_error_msg(t, tok(ts, st.pos + 1))) })
    }
}

/// Moves past a `;` that follows the current token, if there is one.
pub open spec fn skip_semicolon(ts: Seq<SpecToken>, st: PState) -> PState {
    if peek_is(ts, st, SpecToken::Semicolon) {
        adv(ts, st)
    } else {
        st
    }
}

/// The statements of a block whose `{` is just before `st`, up to the
/// closing `}` (or the end), added to `acc`.
pub open spec fn sp_block(ts: Seq<SpecToken>, st: PState, acc: Seq<SpecStmt>) -> (Seq<SpecStmt>, PState)
    decreases rem(ts, st.pos), 7nat,
{
    let t = tok(ts, st.pos);
    if token_is(t, SpecToken::RBrace) || token_is(t, SpecToken::Eof) {
        (acc, st)
    } else {
        let (s, st1) = sp_statement(ts, st);
        let acc1 = match s {
            Some(x) => acc.push(x),
            None => acc,
        };
        let st2 = adv(ts, st1);
        if st2.pos > st.pos {
            sp_block(ts, st2, acc1)
        } else {
            (acc1, st2)
        }
    }
}

/// A statement starting at the current token.
pub open spec fn sp_statement(ts: Seq<SpecToken>, st: PState) -> (Option<SpecStmt>, PState)
    decreases rem(ts, st.pos), 6nat,
{
    match tok(ts, st.pos) {
        SpecToken::Let => sp_let(ts, st),
        SpecToken::Return => sp_return(ts, st),
        _ => sp_expression_statement(ts, st),
    }
}

/// `let <ident> = <expression> [;]`, the current token being `let`.
pub open spec fn sp_let(ts: Seq<SpecToken>, st: PState) -> (Option<SpecStmt>, PState)
    decreases rem(ts, st.pos), 5nat,
{
    let (ok1, st1) = expect_peek(ts, st, SpecToken::Ident(Seq::empty()));
    if !ok1 {
        (None, st1)
    } else {
        match tok(ts, st1.pos) {
            SpecToken::Ident(name) => {
                let (ok2, st2) = expect_peek(ts, st1, SpecToken::Assign);
                if !ok2 {
                    (None, st2)
                } else {
                    let st3 = adv(ts, st2);
                    let (v, st4) = sp_expression(ts, st3, lowest());
                    match v {
                        None => (None, st4),
                        Some(e) => (Some(SpecStmt::Let(name, e)), skip_semicolon(ts, st4)),
                    }
                }
            },
            _ => (None, st1),
        }
    }
}

/// `return <expression> [;]`, the current token being `return`.
pub open spec fn sp_return(ts: Seq<SpecToken>, st: PState) -> (Option<SpecStmt>, PState)
    decreases rem(ts, st.pos), 5nat,
{
    let st1 = adv(ts, st);
    let (v, st2) = sp_expression(ts, st1, lowest());
    match v {
        None => (None, st2),
        Some(e) => (Some(SpecStmt::Return(e)), skip_semicolon(ts, st2)),
    }
}

/// `<expression> [;]`.
pub open spec fn sp_expression_statement(ts: Seq<SpecToken>, st: PState) -> (Option<SpecStmt>, PState)
    decreases rem(ts, st.pos), 5nat,
{
    let (v, st1) = sp_expression(ts, st, lowest());
    match v {
        None => (None, st1),
        Some(e) => (Some(SpecStmt::Expression(e)), skip_semicolon(ts, st1)),
    }
}

/// An expression whose operators bind more strongly than `prec`.
pub open spec fn sp_expression(ts: Seq<SpecToken>, st: PState, prec: nat) -> (Option<SpecExpr>, PState)
    decreases rem(ts, st.pos), 4nat,
{
    let (l, st1) = sp_prefix(ts, st);
    match l {
        None => (None, st1),
        Some(left) => if st1.pos >= st.pos {
            sp_infix_loop(ts, st1, prec, left)
        } else {
            (Some(left), st1)
        },
    }
}

/// Extends `left` with infix operators binding more strongly than `prec`.
pub open spec fn sp_infix_loop(ts: Seq<SpecToken>, st: PState, prec: nat, left: SpecExpr) -> (Option<SpecExpr>, PState)
    decreases rem(ts, st.pos), 2nat,
{
    if !peek_is(ts, st, SpecToken::Semicolon) && prec < prec_of(tok(ts, st.pos + 1)) {
        let st1 = adv(ts, st);
        let op = tok(ts, st1.pos);
        let st2 = adv(ts, st1);
        let (r, st3) = sp_expression(ts, st2, prec_of(op));
        match r {
            None => (None, st3),
            Some(right) => {
                let e = SpecExpr::Infix(op, Box::new(left), Box::new(right));
                if st3.pos > st.pos {
                    sp_infix_loop(ts, st3, prec, e)
                } else {
                    (Some(e), st3)
                }
            },
        }
    } else {
        (Some(left), st)
    }
}

/// An expression that starts at the current token.
pub open spec fn sp_prefix(ts: Seq<SpecToken>, st: PState) -> (Option<SpecExpr>, PState)
    decreases rem(ts, st.pos), 3nat,
{
    match tok(ts, st.pos) {
        SpecToken::Ident(s) => (Some(SpecExpr::Ident(s)), st),
        SpecToken::Int(i) => (Some(SpecExpr::IntLiteral(i)), st),
        SpecToken::Str(s) => (Some(SpecExpr::StringLiteral(s)), st),
        SpecToken::True => (Some(SpecExpr::BoolLiteral(true)), st),
        SpecToken::False => (Some(SpecExpr::BoolLiteral(false)), st),
        SpecToken::Bang | SpecToken::Minus => {
            let op = tok(ts, st.pos);
            let (r, st1) = sp_expression(ts, adv(ts, st), prefix_level());
            match r {
                None => (None, st1),
                Some(right) => (Some(SpecExpr::Prefix(op, Box::new(right))), st1),
            }
        },
        SpecToken::LParen => {
            let (e, st1) = sp_expression(ts, adv(ts, st), lowest());
            let (ok, st2) = expect_peek(ts, st1, SpecToken::RParen);
            if !ok {
                (None, st2)
            } else {
                (e, st2)
            }
        },
        SpecToken::If => sp_if(ts, st),
        SpecToken::Function => sp_function(ts, st),
        _ => (None, st),
    }
}

/// `if (<condition>) { ... } [else { ... }]`, the current token being `if`.
pub open spec fn sp_if(ts: Seq<SpecToken>, st: PState) -> (Option<SpecExpr>, PState)
    decreases rem(ts, st.pos), 2nat,
{
    let (ok1, st1) = expect_peek(ts, st, SpecToken::LParen);
    if !ok1 {
        (None, st1)
    } else {
        let (c, st2) = sp_expression(ts, adv(ts, st1), lowest());
        match c {
            None => (None, st2),
            Some(cond) => {
                let (ok2, st3) = expect_peek(ts, st2, SpecToken::RParen);
                if !ok2 {
                    (None, st3)
                } else {
                    let (ok3, st4) = expect_peek(ts, st3, SpecToken::LBrace);
                    if !ok3 {
                        (None, st4)
                    } else if !(st4.pos > st.pos) {
                        (None, st4)
                    } else {
                        let (cons, st5) = sp_block(ts, adv(ts, st4), Seq::empty());
                        if peek_is(ts, st5, SpecToken::Else) {
                            let st6 = adv(ts, st5);
                            let (ok4, st7) = expect_peek(ts, st6, SpecToken::LBrace);
                            if !ok4 {
                                (None, st7)
                            } else if !(st7.pos > st.pos) {
                                (None, st7)
                            } else {
                                let (alt, st8) = sp_block(ts, adv(ts, st7), Seq::empty());
                                (
                                    Some(SpecExpr::If {
                                        condition: Box::new(cond),
                                        consequence: cons,
                                        alternative: Some(alt),
                                    }),
                                    st8,
                                )
                            }
                        } else {
                            (
                                Some(SpecExpr::If {
                                    condition: Box::new(cond),
                                    consequence: cons,
                                    alternative: None,
                                }),
                                st5,
                            )
                        }
                    }
                }
            },
        }
    }
}

/// `fn (<params>) { ... }`, the current token being `fn`.
pub open spec fn sp_function(ts: Seq<SpecToken>, st: PState) -> (Option<SpecExpr>, PState)
    decreases rem(ts, st.pos), 2nat,
{
    let (ok1, st1) = expect_peek(ts, st, SpecToken::LParen);
    if !ok1 {
        (None, st1)
    } else {
        let (ps, st2) = sp_params(ts, st1);
        match ps {
            None => (None, st2),
            Some(params) => {
                let (ok2, st3) = expect_peek(ts, st2, SpecToken::LBrace);
                if !ok2 {
                    (None, st3)
                } else if !(st3.pos > st.pos) {
                    (None, st3)
                } else {
                    let (body, st4) = sp_block(ts, adv(ts, st3), Seq::empty());
                    (Some(SpecExpr::Function { params, body }), st4)
                }
            },
        }
    }
}

/// The identifier at the current token, if it is one, added to `ids`.
pub open spec fn push_ident(ts: Seq<SpecToken>, st: PState, ids: Seq<Seq<char>>) -> Seq<Seq<char>> {
    match tok(ts, st.pos) {
        SpecToken::Ident(s) => ids.push(s),
        _ => ids,
    }
}

/// Further `, <ident>` parameters.
pub open spec fn sp_params_rest(ts: Seq<SpecToken>, st: PState, ids: Seq<Seq<char>>) -> (Seq<Seq<char>>, PState)
    decreases rem(ts, st.pos),
{
    if peek_is(ts, st, SpecToken::Comma) {
        let st1 = adv(ts, adv(ts, st));
        if st1.pos > st.pos {
            sp_params_rest(ts, st1, push_ident(ts, st1, ids))
        } else {
            (ids, st1)
        }
    } else {
        (ids, st)
    }
}

/// The parameter list of a function, the current token being `(`.
pub open spec fn sp_params(ts: Seq<SpecToken>, st: PState) -> (Option<Seq<Seq<char>>>, PState) {
    if peek_is(ts, st, SpecToken::RParen) {
        (Some(Seq::empty()), adv(ts, st))
    } else {
        let st1 = adv(ts, st);
        let (ids, st2) = sp_params_rest(ts, st1, push_ident(ts, st1, Seq::empty()));
        let (ok, st3) = expect_peek(ts, st2, SpecToken::RParen);
        if ok {
            (Some(ids), st3)
        } else {
            (None, st3)
        }
    }
}

/// The statements of a program from the current token to `Eof`, added to `acc`.
pub open spec fn sp_program(ts: Seq<SpecToken>, st: PState, acc: Seq<SpecStmt>) -> (Seq<SpecStmt>, PState)
    decreases rem(ts, st.pos),
{
    if tok(ts, st.pos) == SpecToken::Eof {
        (acc, st)
    } else {
        let (s, st1) = sp_statement(ts, st);
        let acc1 = match s {
            Some(x) => acc.push(x),
            None => acc,
        };
        let st2 = adv(ts, st1);
        if st2.pos > st.pos {
            sp_program(ts, st2, acc1)
        } else {
            (acc1, st2)
        }
    }
}

/// The result of an infix expression whose operator is the current token and
/// whose left operand is `left`.
pub open spec fn sp_infix(ts: Seq<SpecToken>, st: PState, left: SpecExpr) -> (Option<SpecExpr>, PState) {
    let op = tok(ts, st.pos);
    let (r, st1) = sp_expression(ts, adv(ts, st), prec_of(op));
    match r {
        None => (None, st1),
        Some(right) => (Some(SpecExpr::Infix(op, Box::new(left), Box::new(right))), st1),
    }
}

/// Further `, <expression>` items of a list.
pub open spec fn sp_list_rest(ts: Seq<SpecToken>, st: PState, items: Seq<SpecExpr>) -> (Option<Seq<SpecExpr>>, PState)
    decreases rem(ts, st.pos),
{
    if peek_is(ts, st, SpecToken::Comma) {
        let st1 = adv(ts, adv(ts, st));
        let (e, st2) = sp_expression(ts, st1, lowest());
        match e {
            None => (None, st2),
            Some(x) => if st2.pos > st.pos {
                sp_list_rest(ts, st2, items.push(x))
            } else {
                (Some(items.push(x)), st2)
            },
        }
    } else {
        (Some(items), st)
    }
}

/// A comma-separated list of expressions closed by `end`.
pub open spec fn sp_expression_list(ts: Seq<SpecToken>, st: PState, end: SpecToken) -> (Option<Seq<SpecExpr>>, PState) {
    if peek_is(ts, st, end) {
        (Some(Seq::empty()), adv(ts, st))
    } else {
        let st1 = adv(ts, st);
        let (e, st2) = sp_expression(ts, st1, lowest());
        match e {
            None => (None, st2),
            Some(x) => {
                let (items, st3) = sp_list_rest(ts, st2, seq![x]);
                match items {
                    None => (None, st3),
                    Some(xs) => {
                        let (ok, st4) = expect_peek(ts, st3, end);
                        if ok {
                            (Some(xs), st4)
                        } else {
                            (None, st4)
                        }
                    },
                }
            },
        }
    }
}

/// The view of an optional expression.
pub open spec fn opt_expr(o: Option<Expression>) -> Option<SpecExpr> {
    match o {
        Some(e) => Some(e@),
        None => None,
    }
}

/// The view of an optional statement.
pub open spec fn opt_stmt(o: Option<Statement>) -> Option<SpecStmt> {
    match o {
        Some(s) => Some(s@),
        None => None,
    }
}

/// Binding strength of operators, from weakest to strongest.
enum Precedence {
    Lowest,
    Equals,
    LessGreater,
    Sum,
    Product,
    Prefix,
    Call,
}

impl Precedence {
    spec fn lv(&self) -> nat {
        match self {
            Precedence::Lowest => 0,
            Precedence::Equals => 1,
            Precedence::LessGreater => 2,
            Precedence::Sum => 3,
            Precedence::Product => 4,
            Precedence::Prefix => 5,
            Precedence::Call => 6,
        }
    }

    fn level(&self) -> (r: u8)
        ensures
            r == self.lv(),
    {
        match self {
            Precedence::Lowest => 0,
            Precedence::Equals => 1,
            Precedence::LessGreater => 2,
            Precedence::Sum => 3,
            Precedence::Product => 4,
            Precedence::Prefix => 5,
            Precedence::Call => 6,
        }
    }
}

fn token_precedence(token: &Token) -> (p: Precedence)
    ensures
        p.lv() == prec_of(token@),
{
    match token {
        Token::Eq | Token::NotEq => Precedence::Equals,
        Token::Lt | Token::Gt => Precedence::LessGreater,
        Token::Plus | Token::Minus => Precedence::Sum,
        Token::Slash | Token::Asterisk => Precedence::Product,
        Token::LParen => Precedence::Call,
        _ => Precedence::Lowest,
    }
}

/// Whether token `a` is of the kind of `b`.
fn token_kind_is(a: &Token, b: &Token) -> (r: bool)
    ensures
        r == token_is(a@, b@),
{
    match (a, b) {
        (Token::Ident(_), Token::Ident(_)) => true,
        _ => a.equals(b),
    }
}

/// The message recorded when `got` comes where `expected` was wanted.
fn peek_error_message(expected: &Token, got: &Token) -> (r: String)
    ensures
        r@ == peek_error_msg(expected@, got@),
{
    let mut msg = String::from_str("expected next token to be ");
    let e = expected.debug_text();
    msg.append(e.as_str());
    msg.append(", got ");
    let g = got.debug_text();
    msg.append(g.as_str());
    msg.append(" instead");
    msg
}

/// Parses a token stream into a program, collecting error messages.
pub struct Parser {
    tokens: Vec<Token>,
    cur: usize,
    errors: Vec<String>,
}

/// The views of a sequence of tokens.
pub open spec fn tokens_view(v: Seq<Token>) -> Seq<SpecToken> {
    v.map_values(|t: Token| t@)
}

impl Parser {
    #[verifier::type_invariant]
    spec fn inv(self) -> bool {
        &&& self.tokens@.len() >= 1
        &&& self.tokens@.last()@ is Eof
        &&& self.cur <= self.tokens@.len()
    }

    /// The tokens being parsed.
    pub closed spec fn toks(&self) -> Seq<SpecToken> {
        tokens_view(self.tokens@)
    }

    /// The position of the current token and the errors so far.
    pub closed spec fn state(&self) -> PState {
        PState { pos: self.cur as int, errs: strings_view(self.errors@) }
    }

    /// A parser over all tokens that `lexer` has left, positioned at the first.
    pub fn new(lexer: Lexer) -> (p: Parser)
        ensures
            p.toks() == tokens_from(lexer.text(), lexer.pos() as int),
            p.state() == (PState { pos: 0, errs: Seq::empty() }),
    {
        let mut lexer = lexer;
        let ghost s = lexer.text();
        let ghost p0: int = lexer.pos() as int;
        let mut tokens: Vec<Token> = Vec::new();
        loop
            invariant_except_break
                tokens_view(tokens@) + tokens_from(s, lexer.pos() as int) == tokens_from(s, p0 as int),
            invariant
                lexer.text() == s,
                tokens@.len() == 0 ==> lexer.pos() == p0,
                tokens@.len() > 0 ==> p0 <= s.len(),
            ensures
                tokens_view(tokens@) == tokens_from(s, p0 as int),
                p0 <= s.len(),
            decreases s.len() - lexer.pos(),
        {
            let ghost before: int = lexer.pos() as int;
            let ghost old_tokens = tokens@;
            let t = lexer.next_token();
            proof { lemma_lex_progress(s, before); }
            let is_eof = match t {
                Token::Eof => true,
                _ => false,
            };
            tokens.push(t);
            assert(tokens_view(tokens@) =~= tokens_view(old_tokens).push(t@));
            if is_eof {
                assert(tokens_view(tokens@) =~= tokens_from(s, p0));
                break;
            }
            assert(tokens_from(s, before) == seq![t@] + tokens_from(s, lexer.pos() as int));
            assert(tokens_view(tokens@) + tokens_from(s, lexer.pos() as int) =~= tokens_view(old_tokens) + tokens_from(s, before));
        }
        proof { lemma_tokens_from_shape(s, p0); }
        let p = Parser { tokens, cur: 0, errors: Vec::new() };
        assert(p.state().errs =~= Seq::<Seq<char>>::empty());
        p
    }

    /// The error messages recorded so far.
    pub fn errors(&self) -> (r: &[String])
        ensures
            strings_view(r@) == self.state().errs,
    {
        self.errors.as_slice()
    }

    fn tok_at(&self, p: usize) -> (r: &Token)
        ensures
            r@ == tok(self.toks(), p as int),
    {
        proof { use_type_invariant(self); }
        if p < self.tokens.len() {
            &self.tokens[p]
        } else {
            &self.tokens[self.tokens.len() - 1]
        }
    }

    fn cur_token(&self) -> (r: &Token)
        ensures
            r@ == tok(self.toks(), self.state().pos),
    {
        self.tok_at(self.cur)
    }

    fn peek_token(&self) -> (r: &Token)
        ensures
            r@ == tok(self.toks(), self.state().pos + 1),
    {
        proof { use_type_invariant(self); }
        if self.cur < self.tokens.len() {
            self.tok_at(self.cur + 1)
        } else {
            self.tok_at(self.cur)
        }
    }

    fn next_token(&mut self)
        ensures
            final(self).toks() == old(self).toks(),
            extends(old(self).state().errs, final(self).state().errs),
            final(self).state() == adv(old(self).toks(), old(self).state()),
    {
        proof { use_type_invariant(&*self); }
        if self.cur < self.tokens.len() {
            self.cur = self.cur + 1;
        }
    }

    fn cur_token_is(&self, t: &Token) -> (r: bool)
        ensures
            r == token_is(tok(self.toks(), self.state().pos), t@),
    {
        token_kind_is(self.cur_token(), t)
    }

    fn peek_token_is(&self, t: &Token) -> (r: bool)
        ensures
            r == peek_is(self.toks(), self.state(), t@),
    {
        token_kind_is(self.peek_token(), t)
    }

    fn expect_peek(&mut self, t: Token) -> (r: bool)
        ensures
            final(self).toks() == old(self).toks(),
            extends(old(self).state().errs, final(self).state().errs),
            (r, final(self).state()) == expect_peek(old(self).toks(), old(self).state(), t@),
    {
        if self.peek_token_is(&t) {
            self.next_token();
            true
        } else {
            self.peek_error(t);
            false
        }
    }

    fn peek_error(&mut self, t: Token)
        ensures
            final(self).toks() == old(self).toks(),
            extends(old(self).state().errs, final(self).state().errs),
            final(self).state() == (PState {
                pos: old(self).state().pos,
                errs: old(self).state().errs.push(peek_error_msg(t@, tok(old(self).toks(), old(self).state().pos + 1))),
            }),
    {
        proof { use_type_invariant(&*self); }
        let msg = peek_error_message(&t, self.peek_token());
        let ghost old_errors = self.errors@;
        let mut errors: Vec<String> = Vec::new();
        std::mem::swap(&mut errors, &mut self.errors);
        errors.push(msg);
        self.errors = errors;
        assert(strings_view(self.errors@) =~= strings_view(old_errors).push(msg@));
    }

    /// Parses statements up to `Eof`.
    pub fn parse_program(&mut self) -> (program: Program)
        ensures
            final(self).toks() == old(self).toks(),
            extends(old(self).state().errs, final(self).state().errs),
            (program@, final(self).state()) == sp_program(old(self).toks(), old(self).state(), Seq::empty()),
            tok(final(self).toks(), final(self).state().pos) is Eof,
            adds_peek_errors(old(self).state().errs, final(self).state().errs),
    {
        let ghost ts = self.toks();
        let ghost st0 = self.state();
        proof { law_program_reports_only_peek_errors(ts, st0, Seq::empty()); }
        let mut program = Program::new();
        while !self.cur_token().equals(&Token::Eof)
            invariant
                self.toks() == ts,
                ts == old(self).toks(),
                st0 == old(self).state(),
                extends(st0.errs, self.state().errs),
                sp_program(ts, self.state(), program@) == sp_program(ts, st0, Seq::empty()),
            decreases rem(ts, self.state().pos),
        {
            proof { use_type_invariant(&*self); }
            let ghost prev = program.statements@;
            match self.parse_statement() {
                Some(stmt) => {
                    program.statements.push(stmt);
                    proof { lemma_stmt_seq_push(prev, stmt); }
                },
                None => {},
            }
            self.next_token();
        }
        program
    }

    fn parse_statement(&mut self) -> (r: Option<Statement>)
        ensures
            final(self).toks() == old(self).toks(),
            extends(old(self).state().errs, final(self).state().errs),
            final(self).state().pos >= old(self).state().pos,
            (opt_stmt(r), final(self).state()) == sp_statement(old(self).toks(), old(self).state()),
        decreases rem(old(self).toks(), old(self).state().pos), 6nat,
    {
        match self.cur_token() {
            Token::Let => self.parse_let_statement(),
            Token::Return => self.parse_return_statement(),
            _ => self.parse_expression_statement(),
        }
    }

    fn parse_let_statement(&mut self) -> (r: Option<Statement>)
        ensures
            final(self).toks() == old(self).toks(),
            extends(old(self).state().errs, final(self).state().errs),
            final(self).state().pos >= old(self).state().pos,
            (opt_stmt(r), final(self).state()) == sp_let(old(self).toks(), old(self).state()),
        decreases rem(old(self).toks(), old(self).state().pos), 5nat,
    {
        if !self.expect_peek(Token::Ident(String::new())) {
            return None;
        }
        let name = match self.cur_token() {
            Token::Ident(s) => s.clone(),
            _ => return None,
        };
        if !self.expect_peek(Token::Assign) {
            return None;
        }
        self.next_token();
        let value = match self.parse_expression(Precedence::Lowest) {
            Some(v) => v,
            None => return None,
        };
        if self.peek_token_is(&Token::Semicolon) {
            self.next_token();
        }
        Some(Statement::Let(name, value))
    }

    fn parse_return_statement(&mut self) -> (r: Option<Statement>)
        ensures
            final(self).toks() == old(self).toks(),
            extends(old(self).state().errs, final(self).state().errs),
            final(self).state().pos >= old(self).state().pos,
            (opt_stmt(r), final(self).state()) == sp_return(old(self).toks(), old(self).state()),
        decreases rem(old(self).toks(), old(self).state().pos), 5nat,
    {
        self.next_token();
        let value = match self.parse_expression(Precedence::Lowest) {
            Some(v) => v,
            None => return None,
        };
        if self.peek_token_is(&Token::Semicolon) {
            self.next_token();
        }
        Some(Statement::Return(value))
    }

    fn parse_expression_statement(&mut self) -> (r: Option<Statement>)
        ensures
            final(self).toks() == old(self).toks(),
            extends(old(self).state().errs, final(self).state().errs),
            final(self).state().pos >= old(self).state().pos,
            (opt_stmt(r), final(self).state()) == sp_expression_statement(old(self).toks(), old(self).state()),
        decreases rem(old(self).toks(), old(self).state().pos), 5nat,
    {
        let expr = match self.parse_expression(Precedence::Lowest) {
            Some(e) => e,
            None => return None,
        };
        if self.peek_token_is(&Token::Semicolon) {
            self.next_token();
        }
        Some(Statement::Expression(expr))
    }

    fn parse_expression(&mut self, precedence: Precedence) -> (r: Option<Expression>)
        ensures
            final(self).toks() == old(self).toks(),
            extends(old(self).state().errs, final(self).state().errs),
            final(self).state().pos >= old(self).state().pos,
            (opt_expr(r), final(self).state()) == sp_expression(old(self).toks(), old(self).state(), precedence.lv()),
        decreases rem(old(self).toks(), old(self).state().pos), 4nat,
    {
        let ghost ts = self.toks();
        let ghost st0 = self.state();
        let mut left_expr = match self.parse_prefix() {
            Some(e) => e,
            None => return None,
        };
        while !self.peek_token_is(&Token::Semicolon) && precedence.level() < self.peek_precedence().level()
            invariant
                self.toks() == ts,
                ts == old(self).toks(),
                st0 == old(self).state(),
                extends(st0.errs, self.state().errs),
                self.state().pos >= st0.pos,
                sp_infix_loop(ts, self.state(), precedence.lv(), left_expr@) == sp_expression(ts, st0, precedence.lv()),
            decreases rem(ts, self.state().pos),
        {
            proof { use_type_invariant(&*self); }
            self.next_token();
            left_expr = match self.parse_infix(left_expr) {
                Some(e) => e,
                None => return None,
            };
        }
        Some(left_expr)
    }

    fn parse_prefix(&mut self) -> (r: Option<Expression>)
        ensures
            final(self).toks() == old(self).toks(),
            extends(old(self).state().errs, final(self).state().errs),
            final(self).state().pos >= old(self).state().pos,
            (opt_expr(r), final(self).state()) == sp_prefix(old(self).toks(), old(self).state()),
        decreases rem(old(self).toks(), old(self).state().pos), 3nat,
    {
        match self.cur_token() {
            Token::Ident(s) => Some(Expression::Ident(s.clone())),
            Token::Int(i) => Some(Expression::IntLiteral(*i)),
            Token::String(s) => Some(Expression::StringLiteral(s.clone())),
            Token::True => Some(Expression::BoolLiteral(true)),
            Token::False => Some(Expression::BoolLiteral(false)),
            Token::Bang | Token::Minus => self.parse_prefix_expression(),
            Token::LParen => self.parse_grouped_expression(),
            Token::If => self.parse_if_expression(),
            Token::Function => self.parse_function_literal(),
            _ => None,
        }
    }

    fn parse_prefix_expression(&mut self) -> (r: Option<Expression>)
        requires
            tok(old(self).toks(), old(self).state().pos) is Bang || tok(old(self).toks(), old(self).state().pos) is Minus,
        ensures
            final(self).toks() == old(self).toks(),
            extends(old(self).state().errs, final(self).state().errs),
            final(self).state().pos >= old(self).state().pos,
            (opt_expr(r), final(self).state()) == sp_prefix(old(self).toks(), old(self).state()),
        decreases rem(old(self).toks(), old(self).state().pos), 2nat,
    {
        let token = self.cur_token().duplicate();
        self.next_token();
        let right = match self.parse_expression(Precedence::Prefix) {
            Some(e) => e,
            None => return None,
        };
        Some(Expression::Prefix(token, Box::new(right)))
    }

    fn parse_infix(&mut self, left: Expression) -> (r: Option<Expression>)
        ensures
            final(self).toks() == old(self).toks(),
            extends(old(self).state().errs, final(self).state().errs),
            final(self).state().pos >= old(self).state().pos,
            (opt_expr(r), final(self).state()) == sp_infix(old(self).toks(), old(self).state(), left@),
        decreases rem(old(self).toks(), old(self).state().pos), 5nat,
    {
        let token = self.cur_token().duplicate();
        let precedence = self.cur_precedence();
        self.next_token();
        let right = match self.parse_expression(precedence) {
            Some(e) => e,
            None => return None,
        };
        Some(Expression::Infix(token, Box::new(left), Box::new(right)))
    }

    fn parse_grouped_expression(&mut self) -> (r: Option<Expression>)
        requires
            tok(old(self).toks(), old(self).state().pos) is LParen,
        ensures
            final(self).toks() == old(self).toks(),
            extends(old(self).state().errs, final(self).state().errs),
            final(self).state().pos >= old(self).state().pos,
            (opt_expr(r), final(self).state()) == sp_prefix(old(self).toks(), old(self).state()),
        decreases rem(old(self).toks(), old(self).state().pos), 2nat,
    {
        self.next_token();
        let exp = self.parse_expression(Precedence::Lowest);
        if !self.expect_peek(Token::RParen) {
            return None;
        }
        exp
    }

    fn parse_if_expression(&mut self) -> (r: Option<Expression>)
        requires
            tok(old(self).toks(), old(self).state().pos) is If,
        ensures
            final(self).toks() == old(self).toks(),
            extends(old(self).state().errs, final(self).state().errs),
            final(self).state().pos >= old(self).state().pos,
            (opt_expr(r), final(self).state()) == sp_if(old(self).toks(), old(self).state()),
        decreases rem(old(self).toks(), old(self).state().pos), 2nat,
    {
        if !self.expect_peek(Token::LParen) {
            return None;
        }
        self.next_token();
        let condition = match self.parse_expression(Precedence::Lowest) {
            Some(c) => c,
            None => return None,
        };
        if !self.expect_peek(Token::RParen) {
            return None;
        }
        if !self.expect_peek(Token::LBrace) {
            return None;
        }
        let consequence = self.parse_block_statement();
        let mut alternative = None;
        if self.peek_token_is(&Token::Else) {
            self.next_token();
            if !self.expect_peek(Token::LBrace) {
                return None;
            }
            alternative = Some(self.parse_block_statement());
        }
        Some(Expression::If { condition: Box::new(condition), consequence, alternative })
    }

    fn parse_block_statement(&mut self) -> (r: Vec<Statement>)
        ensures
            final(self).toks() == old(self).toks(),
            extends(old(self).state().errs, final(self).state().errs),
            final(self).state().pos >= old(self).state().pos,
            (stmt_seq_view(r@), final(self).state()) == sp_block(old(self).toks(), adv(old(self).toks(), old(self).state()), Seq::empty()),
        decreases rem(old(self).toks(), old(self).state().pos), 7nat,
    {
        let ghost ts = self.toks();
        let ghost st0 = self.state();
        let mut statements: Vec<Statement> = Vec::new();
        self.next_token();
        assert(stmt_seq_view(statements@) =~= Seq::<SpecStmt>::empty());
        while !self.cur_token_is(&Token::RBrace) && !self.cur_token_is(&Token::Eof)
            invariant
                self.toks() == ts,
                ts == old(self).toks(),
                st0 == old(self).state(),
                extends(st0.errs, self.state().errs),
                self.state().pos >= st0.pos,
                sp_block(ts, self.state(), stmt_seq_view(statements@)) == sp_block(ts, adv(ts, st0), Seq::empty()),
            decreases rem(ts, self.state().pos),
        {
            proof { use_type_invariant(&*self); }
            let ghost prev = statements@;
            match self.parse_statement() {
                Some(stmt) => {
                    statements.push(stmt);
                    proof { lemma_stmt_seq_push(prev, stmt); }
                },
                None => {},
            }
            self.next_token();
        }
        statements
    }

    fn parse_function_literal(&mut self) -> (r: Option<Expression>)
        requires
            tok(old(self).toks(), old(self).state().pos) is Function,
        ensures
            final(self).toks() == old(self).toks(),
            extends(old(self).state().errs, final(self).state().errs),
            final(self).state().pos >= old(self).state().pos,
            (opt_expr(r), final(self).state()) == sp_function(old(self).toks(), old(self).state()),
        decreases rem(old(self).toks(), old(self).state().pos), 2nat,
    {
        if !self.expect_peek(Token::LParen) {
            return None;
        }
        let params = match self.parse_function_parameters() {
            Some(p) => p,
            None => return None,
        };
        if !self.expect_peek(Token::LBrace) {
            return None;
        }
        let body = self.parse_block_statement();
        Some(Expression::Function { params, body })
    }

    fn parse_function_parameters(&mut self) -> (r: Option<Vec<String>>)
        ensures
            final(self).toks() == old(self).toks(),
            extends(old(self).state().errs, final(self).state().errs),
            final(self).state().pos >= old(self).state().pos,
            (match r {
                Some(v) => Some(strings_view(v@)),
                None => None,
            }, final(self).state()) == sp_params(old(self).toks(), old(self).state()),
    {
        let ghost ts = self.toks();
        let ghost st0 = self.state();
        let mut identifiers: Vec<String> = Vec::new();
        if self.peek_token_is(&Token::RParen) {
            self.next_token();
            assert(strings_view(identifiers@) =~= Seq::<Seq<char>>::empty());
            return Some(identifiers);
        }
        self.next_token();
        if let Token::Ident(ident) = self.cur_token() {
            identifiers.push(ident.clone());
        }
        assert(strings_view(identifiers@) =~= push_ident(ts, self.state(), Seq::empty()));
        while self.peek_token_is(&Token::Comma)
            invariant
                self.toks() == ts,
                ts == old(self).toks(),
                st0 == old(self).state(),
                extends(st0.errs, self.state().errs),
                self.state().pos >= st0.pos,
                sp_params_rest(ts, self.state(), strings_view(identifiers@))
                    == sp_params_rest(ts, adv(ts, st0), push_ident(ts, adv(ts, st0), Seq::empty())),
            decreases rem(ts, self.state().pos),
        {
            proof { use_type_invariant(&*self); }
            self.next_token();
            self.next_token();
            let ghost prev = identifiers@;
            if let Token::Ident(ident) = self.cur_token() {
                let x = ident.clone();
                identifiers.push(x);
                proof { lemma_strings_push(prev, x); }
            }
        }
        if !self.expect_peek(Token::RParen) {
            return None;
        }
        Some(identifiers)
    }

    fn parse_call_expression(&mut self, function: Expression) -> (r: Option<Expression>)
        ensures
            final(self).toks() == old(self).toks(),
            extends(old(self).state().errs, final(self).state().errs),
            (opt_expr(r), final(self).state()) == (match sp_expression_list(old(self).toks(), old(self).state(), SpecToken::RParen) {
                (Some(args), st) => (Some(SpecExpr::Call { function: Box::new(function@), arguments: args }), st),
                (None, st) => (None, st),
            }),
    {
        let arguments = match self.parse_expression_list(Token::RParen) {
            Some(a) => a,
            None => return None,
        };
        Some(Expression::Call { function: Box::new(function), arguments })
    }

    fn parse_expression_list(&mut self, end: Token) -> (r: Option<Vec<Expression>>)
        ensures
            final(self).toks() == old(self).toks(),
            extends(old(self).state().errs, final(self).state().errs),
            (match r {
                Some(v) => Some(expr_seq_view(v@)),
                None => None,
            }, final(self).state()) == sp_expression_list(old(self).toks(), old(self).state(), end@),
    {
        let ghost ts = self.toks();
        let ghost st0 = self.state();
        let mut list: Vec<Expression> = Vec::new();
        if self.peek_token_is(&end) {
            self.next_token();
            assert(expr_seq_view(list@) =~= Seq::<SpecExpr>::empty());
            return Some(list);
        }
        self.next_token();
        let first = match self.parse_expression(Precedence::Lowest) {
            Some(e) => e,
            None => return None,
        };
        list.push(first);
        assert(expr_seq_view(list@) =~= seq![first@]);
        let ghost st1 = self.state();
        while self.peek_token_is(&Token::Comma)
            invariant
                self.toks() == ts,
                ts == old(self).toks(),
                st0 == old(self).state(),
                extends(st0.errs, self.state().errs),
                self.state().pos >= st1.pos,
                sp_list_rest(ts, self.state(), expr_seq_view(list@)) == sp_list_rest(ts, st1, seq![first@]),
                sp_expression_list(ts, st0, end@) == (match sp_list_rest(ts, st1, seq![first@]) {
                    (None, st3) => (None, st3),
                    (Some(xs), st3) => {
                        let (ok, st4) = expect_peek(ts, st3, end@);
                        if ok {
                            (Some(xs), st4)
                        } else {
                            (None, st4)
                        }
                    },
                }),
            decreases rem(ts, self.state().pos),
        {
            proof { use_type_invariant(&*self); }
            self.next_token();
            self.next_token();
            let e = match self.parse_expression(Precedence::Lowest) {
                Some(e) => e,
                None => return None,
            };
            let ghost prev = list@;
            list.push(e);
            proof { lemma_expr_seq_push(prev, e); }
        }
        if !self.expect_peek(end) {
            return None;
        }
        Some(list)
    }

    fn cur_precedence(&self) -> (p: Precedence)
        ensures
            p.lv() == prec_of(tok(self.toks(), self.state().pos)),
    {
        token_precedence(self.cur_token())
    }

    fn peek_precedence(&self) -> (p: Precedence)
        ensures
            p.lv() == prec_of(tok(self.toks(), self.state().pos + 1)),
    {
        token_precedence(self.peek_token())
    }
}

/// Whether `m` is the message of a failed look-ahead: some token was expected
/// and another came.
pub open spec fn is_peek_error(m: Seq<char>) -> bool {
    exists|t: SpecToken, g: SpecToken| #[trigger] peek_error_msg(t, g) == m
}

/// Whether `b` keeps all messages of `a` and adds only failed look-ahead
/// messages after them.
pub open spec fn adds_peek_errors(a: Seq<Seq<char>>, b: Seq<Seq<char>>) -> bool {
    &&& extends(a, b)
    &&& forall|k: int| a.len() <= k < b.len() ==> is_peek_error(#[trigger] b[k])
}

proof fn lemma_adds_trans(a: Seq<Seq<char>>, b: Seq<Seq<char>>, c: Seq<Seq<char>>)
    requires
        adds_peek_errors(a, b),
        adds_peek_errors(b, c),
    ensures
        adds_peek_errors(a, c),
{
    assert forall|k: int| a.len() <= k < c.len() implies is_peek_error(#[trigger] c[k]) by {
        if k < b.len() {
            assert(c[k] == b[k]);
            assert(is_peek_error(b[k]));
        }
    }
}

proof fn lemma_expect_peek_errors(ts: Seq<SpecToken>, st: PState, t: SpecToken)
    ensures
        adds_peek_errors(st.errs, expect_peek(ts, st, t).1.errs),
{
    let g = tok(ts, st.pos + 1);
    let e = expect_peek(ts, st, t).1.errs;
    if !peek_is(ts, st, t) {
        assert(e[st.errs.len() as int] == peek_error_msg(t, g));
        assert(is_peek_error(e[st.errs.len() as int]));
    }
}

proof fn lemma_block_errors(ts: Seq<SpecToken>, st: PState, acc: Seq<SpecStmt>)
    ensures
        adds_peek_errors(st.errs, sp_block(ts, st, acc).1.errs),
    decreases rem(ts, st.pos), 7nat,
{
    let t = tok(ts, st.pos);
    if !(token_is(t, SpecToken::RBrace) || token_is(t, SpecToken::Eof)) {
        let (s, st1) = sp_statement(ts, st);
        lemma_statement_errors(ts, st);
        let acc1 = match s {
            Some(x) => acc.push(x),
            None => acc,
        };
        let st2 = adv(ts, st1);
        if st2.pos > st.pos {
            lemma_block_errors(ts, st2, acc1);
            lemma_adds_trans(st.errs, st2.errs, sp_block(ts, st2, acc1).1.errs);
        }
    }
}

proof fn lemma_statement_errors(ts: Seq<SpecToken>, st: PState)
    ensures
        adds_peek_errors(st.errs, sp_statement(ts, st).1.errs),
    decreases rem(ts, st.pos), 6nat,
{
    match tok(ts, st.pos) {
        SpecToken::Let => lemma_let_errors(ts, st),
        SpecToken::Return => lemma_return_errors(ts, st),
        _ => lemma_expression_statement_errors(ts, st),
    }
}

proof fn lemma_let_errors(ts: Seq<SpecToken>, st: PState)
    ensures
        adds_peek_errors(st.errs, sp_let(ts, st).1.errs),
    decreases rem(ts, st.pos), 5nat,
{
    let (ok1, st1) = expect_peek(ts, st, SpecToken::Ident(Seq::empty()));
    lemma_expect_peek_errors(ts, st, SpecToken::Ident(Seq::empty()));
    if ok1 {
        match tok(ts, st1.pos) {
            SpecToken::Ident(name) => {
                let (ok2, st2) = expect_peek(ts, st1, SpecToken::Assign);
                lemma_expect_peek_errors(ts, st1, SpecToken::Assign);
                lemma_adds_trans(st.errs, st1.errs, st2.errs);
                if ok2 {
                    let st3 = adv(ts, st2);
                    lemma_expression_errors(ts, st3, lowest());
                    lemma_adds_trans(st.errs, st3.errs, sp_expression(ts, st3, lowest()).1.errs);
                }
            },
            _ => {},
        }
    }
}

proof fn lemma_return_errors(ts: Seq<SpecToken>, st: PState)
    ensures
        adds_peek_errors(st.errs, sp_return(ts, st).1.errs),
    decreases rem(ts, st.pos), 5nat,
{
    lemma_expression_errors(ts, adv(ts, st), lowest());
}

proof fn lemma_expression_statement_errors(ts: Seq<SpecToken>, st: PState)
    ensures
        adds_peek_errors(st.errs, sp_expression_statement(ts, st).1.errs),
    decreases rem(ts, st.pos), 5nat,
{
    lemma_expression_errors(ts, st, lowest());
}

proof fn lemma_expression_errors(ts: Seq<SpecToken>, st: PState, prec: nat)
    ensures
        adds_peek_errors(st.errs, sp_expression(ts, st, prec).1.errs),
    decreases rem(ts, st.pos), 4nat,
{
    let (l, st1) = sp_prefix(ts, st);
    lemma_prefix_errors(ts, st);
    match l {
        None => {},
        Some(left) => if st1.pos >= st.pos {
            lemma_infix_loop_errors(ts, st1, prec, left);
            lemma_adds_trans(st.errs, st1.errs, sp_infix_loop(ts, st1, prec, left).1.errs);
        },
    }
}

proof fn lemma_infix_loop_errors(ts: Seq<SpecToken>, st: PState, prec: nat, left: SpecExpr)
    ensures
        adds_peek_errors(st.errs, sp_infix_loop(ts, st, prec, left).1.errs),
    decreases rem(ts, st.pos), 2nat,
{
    if !peek_is(ts, st, SpecToken::Semicolon) && prec < prec_of(tok(ts, st.pos + 1)) {
        let st1 = adv(ts, st);
        let op = tok(ts, st1.pos);
        let st2 = adv(ts, st1);
        let (r, st3) = sp_expression(ts, st2, prec_of(op));
        lemma_expression_errors(ts, st2, prec_of(op));
        match r {
            None => {},
            Some(right) => {
                let e = SpecExpr::Infix(op, Box::new(left), Box::new(right));
                if st3.pos > st.pos {
                    lemma_infix_loop_errors(ts, st3, prec, e);
                    lemma_adds_trans(st.errs, st3.errs, sp_infix_loop(ts, st3, prec, e).1.errs);
                }
            },
        }
    }
}

proof fn lemma_prefix_errors(ts: Seq<SpecToken>, st: PState)
    ensures
        adds_peek_errors(st.errs, sp_prefix(ts, st).1.errs),
    decreases rem(ts, st.pos), 3nat,
{
    match tok(ts, st.pos) {
        SpecToken::Bang | SpecToken::Minus => {
            lemma_expression_errors(ts, adv(ts, st), prefix_level());
        },
        SpecToken::LParen => {
            let (e, st1) = sp_expression(ts, adv(ts, st), lowest());
            lemma_expression_errors(ts, adv(ts, st), lowest());
            lemma_expect_peek_errors(ts, st1, SpecToken::RParen);
            lemma_adds_trans(st.errs, st1.errs, expect_peek(ts, st1, SpecToken::RParen).1.errs);
        },
        SpecToken::If => lemma_if_errors(ts, st),
        SpecToken::Function => lemma_function_errors(ts, st),
        _ => {},
    }
}

proof fn lemma_if_errors(ts: Seq<SpecToken>, st: PState)
    ensures
        adds_peek_errors(st.errs, sp_if(ts, st).1.errs),
    decreases rem(ts, st.pos), 2nat,
{
    let (ok1, st1) = expect_peek(ts, st, SpecToken::LParen);
    lemma_expect_peek_errors(ts, st, SpecToken::LParen);
    if ok1 {
        let (c, st2) = sp_expression(ts, adv(ts, st1), lowest());
        lemma_expression_errors(ts, adv(ts, st1), lowest());
        lemma_adds_trans(st.errs, st1.errs, st2.errs);
        match c {
            None => {},
            Some(cond) => {
                let (ok2, st3) = expect_peek(ts, st2, SpecToken::RParen);
                lemma_expect_peek_errors(ts, st2, SpecToken::RParen);
                lemma_adds_trans(st.errs, st2.errs, st3.errs);
                if ok2 {
                    let (ok3, st4) = expect_peek(ts, st3, SpecToken::LBrace);
                    lemma_expect_peek_errors(ts, st3, SpecToken::LBrace);
                    lemma_adds_trans(st.errs, st3.errs, st4.errs);
                    if ok3 && st4.pos > st.pos {
                        let (cons, st5) = sp_block(ts, adv(ts, st4), Seq::empty());
                        lemma_block_errors(ts, adv(ts, st4), Seq::empty());
                        lemma_adds_trans(st.errs, st4.errs, st5.errs);
                        if peek_is(ts, st5, SpecToken::Else) {
                            let st6 = adv(ts, st5);
                            let (ok4, st7) = expect_peek(ts, st6, SpecToken::LBrace);
                            lemma_expect_peek_errors(ts, st6, SpecToken::LBrace);
                            lemma_adds_trans(st.errs, st6.errs, st7.errs);
                            if ok4 && st7.pos > st.pos {
                                let (alt, st8) = sp_block(ts, adv(ts, st7), Seq::empty());
                                lemma_block_errors(ts, adv(ts, st7), Seq::empty());
                                lemma_adds_trans(st.errs, st7.errs, st8.errs);
                            }
                        }
                    }
                }
            },
        }
    }
}

proof fn lemma_params_rest_errors(ts: Seq<SpecToken>, st: PState, ids: Seq<Seq<char>>)
    ensures
        sp_params_rest(ts, st, ids).1.errs == st.errs,
    decreases rem(ts, st.pos),
{
    if peek_is(ts, st, SpecToken::Comma) {
        let st1 = adv(ts, adv(ts, st));
        if st1.pos > st.pos {
            lemma_params_rest_errors(ts, st1, push_ident(ts, st1, ids));
        }
    }
}

proof fn lemma_params_errors(ts: Seq<SpecToken>, st: PState)
    ensures
        adds_peek_errors(st.errs, sp_params(ts, st).1.errs),
{
    if !peek_is(ts, st, SpecToken::RParen) {
        let st1 = adv(ts, st);
        let ids0 = push_ident(ts, st1, Seq::empty());
        let (ids, st2) = sp_params_rest(ts, st1, ids0);
        lemma_params_rest_errors(ts, st1, ids0);
        lemma_expect_peek_errors(ts, st2, SpecToken::RParen);
    }
}

proof fn lemma_function_errors(ts: Seq<SpecToken>, st: PState)
    ensures
        adds_peek_errors(st.errs, sp_function(ts, st).1.errs),
    decreases rem(ts, st.pos), 2nat,
{
    let (ok1, st1) = expect_peek(ts, st, SpecToken::LParen);
    lemma_expect_peek_errors(ts, st, SpecToken::LParen);
    if ok1 {
        let (ps, st2) = sp_params(ts, st1);
        lemma_params_errors(ts, st1);
        lemma_adds_trans(st.errs, st1.errs, st2.errs);
        match ps {
            None => {},
            Some(params) => {
                let (ok2, st3) = expect_peek(ts, st2, SpecToken::LBrace);
                lemma_expect_peek_errors(ts, st2, SpecToken::LBrace);
                lemma_adds_trans(st.errs, st2.errs, st3.errs);
                if ok2 && st3.pos > st.pos {
                    lemma_block_errors(ts, adv(ts, st3), Seq::empty());
                    lemma_adds_trans(st.errs, st3.errs, sp_block(ts, adv(ts, st3), Seq::empty()).1.errs);
                }
            },
        }
    }
}

/// Parsing a program keeps every earlier message and adds only messages of
/// failed look-aheads (`expected next token to be .., got .. instead`): a
/// token that starts no statement is skipped without a message.
pub proof fn law_program_reports_only_peek_errors(ts: Seq<SpecToken>, st: PState, acc: Seq<SpecStmt>)
    ensures
        adds_peek_errors(st.errs, sp_program(ts, st, acc).1.errs),
    decreases rem(ts, st.pos),
{
    if tok(ts, st.pos) != SpecToken::Eof {
        let (s, st1) = sp_statement(ts, st);
        lemma_statement_errors(ts, st);
        let acc1 = match s {
            Some(x) => acc.push(x),
            None => acc,
        };
        let st2 = adv(ts, st1);
        if st2.pos > st.pos {
            law_program_reports_only_peek_errors(ts, st2, acc1);
            lemma_adds_trans(st.errs, st2.errs, sp_program(ts, st2, acc1).1.errs);
        }
    }
}


/// Whether `t` is one of the binary operators `==` `!=` `<` `>` `+` `-` `*` `/`.
pub open spec fn is_binary_operator(t: SpecToken) -> bool {
    ||| t is Eq
    ||| t is NotEq
    ||| t is Lt
    ||| t is Gt
    ||| t is Plus
    ||| t is Minus
    ||| t is Asterisk
    ||| t is Slash
}

/// The binding strengths grow in the documented order: equality (`==`, `!=`)
/// binds most loosely, then comparison (`<`, `>`), then sums (`+`, `-`), then
/// products (`*`, `/`), then calls; operators of one group bind alike.
pub proof fn law_binding_order()
    ensures
        prec_of(SpecToken::Eq) == prec_of(SpecToken::NotEq),
        prec_of(SpecToken::Lt) == prec_of(SpecToken::Gt),
        prec_of(SpecToken::Plus) == prec_of(SpecToken::Minus),
        prec_of(SpecToken::Asterisk) == prec_of(SpecToken::Slash),
        lowest() < prec_of(SpecToken::Eq),
        prec_of(SpecToken::Eq) < prec_of(SpecToken::Lt),
        prec_of(SpecToken::Lt) < prec_of(SpecToken::Plus),
        prec_of(SpecToken::Plus) < prec_of(SpecToken::Asterisk),
        prec_of(SpecToken::Asterisk) < prefix_level(),
        prefix_level() < prec_of(SpecToken::LParen),
{
}

/// The tree of `a o1 b o2 c`: the second operator takes the first operation
/// as its left operand unless it binds more strongly than the first.
pub open spec fn two_operator_tree(
    a: Seq<char>,
    o1: SpecToken,
    b: Seq<char>,
    o2: SpecToken,
    c: Seq<char>,
) -> SpecExpr {
    let (ea, eb, ec) = (SpecExpr::Ident(a), SpecExpr::Ident(b), SpecExpr::Ident(c));
    if prec_of(o1) < prec_of(o2) {
        SpecExpr::Infix(o1, Box::new(ea), Box::new(SpecExpr::Infix(o2, Box::new(eb), Box::new(ec))))
    } else {
        SpecExpr::Infix(o2, Box::new(SpecExpr::Infix(o1, Box::new(ea), Box::new(eb))), Box::new(ec))
    }
}

/// Whether `ts` begins with `a o1 b o2 c` followed by `;` or the end.
pub open spec fn starts_with_two_operators(
    ts: Seq<SpecToken>,
    a: Seq<char>,
    o1: SpecToken,
    b: Seq<char>,
    o2: SpecToken,
    c: Seq<char>,
) -> bool {
    &&& ts.len() >= 5
    &&& ts[0] == SpecToken::Ident(a)
    &&& ts[1] == o1
    &&& ts[2] == SpecToken::Ident(b)
    &&& ts[3] == o2
    &&& ts[4] == SpecToken::Ident(c)
    &&& (tok(ts, 5) is Semicolon || tok(ts, 5) is Eof)
}

/// An expression `a o1 b o2 c` of two binary operators is grouped by their
/// binding strengths (left to right when they bind alike); the parse ends on
/// `c` and records no message.
pub proof fn law_two_operators(
    ts: Seq<SpecToken>,
    errs: Seq<Seq<char>>,
    a: Seq<char>,
    o1: SpecToken,
    b: Seq<char>,
    o2: SpecToken,
    c: Seq<char>,
)
    requires
        starts_with_two_operators(ts, a, o1, b, o2, c),
        is_binary_operator(o1),
        is_binary_operator(o2),
    ensures
        sp_expression(ts, PState { pos: 0, errs }, lowest()) == (
            Some(two_operator_tree(a, o1, b, o2, c)),
            PState { pos: 4, errs },
        ),
{
    let s0 = PState { pos: 0, errs };
    let s1 = PState { pos: 1, errs };
    let s2 = PState { pos: 2, errs };
    let s3 = PState { pos: 3, errs };
    let s4 = PState { pos: 4, errs };
    let (ea, eb, ec) = (SpecExpr::Ident(a), SpecExpr::Ident(b), SpecExpr::Ident(c));
    let (p1, p2) = (prec_of(o1), prec_of(o2));
    assert(tok(ts, 0) == SpecToken::Ident(a));
    assert(tok(ts, 1) == o1);
    assert(tok(ts, 2) == SpecToken::Ident(b));
    assert(tok(ts, 3) == o2);
    assert(tok(ts, 4) == SpecToken::Ident(c));
    assert(prec_of(tok(ts, 5)) == 0);
    assert(0 < p1 && 0 < p2);
    assert(adv(ts, s0) == s1);
    assert(adv(ts, s1) == s2);
    assert(adv(ts, s2) == s3);
    assert(adv(ts, s3) == s4);
    assert(sp_prefix(ts, s0) == (Some(ea), s0));
    assert(sp_prefix(ts, s2) == (Some(eb), s2));
    assert(sp_prefix(ts, s4) == (Some(ec), s4));
    // Nothing binds after `c`.
    assert forall|p: nat, x: SpecExpr| sp_infix_loop(ts, s4, p, x) == (Some(x), s4) by {
    }
    assert(sp_expression(ts, s4, p2) == (Some(ec), s4));
    let inner = SpecExpr::Infix(o2, Box::new(eb), Box::new(ec));
    assert(!peek_is(ts, s0, SpecToken::Semicolon));
    assert(!peek_is(ts, s2, SpecToken::Semicolon));
    assert(tok(ts, s0.pos + 1) == o1);
    assert(tok(ts, s2.pos + 1) == o2);
    if p1 < p2 {
        assert(sp_infix_loop(ts, s4, p1, inner) == (Some(inner), s4));
        assert(sp_infix_loop(ts, s2, p1, eb) == (Some(inner), s4));
        assert(sp_expression(ts, s2, p1) == (Some(inner), s4));
        let whole = SpecExpr::Infix(o1, Box::new(ea), Box::new(inner));
        assert(sp_infix_loop(ts, s4, lowest(), whole) == (Some(whole), s4));
        assert(sp_infix_loop(ts, s0, lowest(), ea) == (Some(whole), s4));
    } else {
        assert(sp_infix_loop(ts, s2, p1, eb) == (Some(eb), s2));
        assert(sp_expression(ts, s2, p1) == (Some(eb), s2));
        let first = SpecExpr::Infix(o1, Box::new(ea), Box::new(eb));
        let whole = SpecExpr::Infix(o2, Box::new(first), Box::new(ec));
        assert(sp_infix_loop(ts, s4, lowest(), whole) == (Some(whole), s4));
        assert(sp_infix_loop(ts, s2, lowest(), first) == (Some(whole), s4));
        assert(sp_infix_loop(ts, s0, lowest(), ea) == (Some(whole), s4));
    }
}

/// `==` and `!=`.
pub open spec fn is_equality(t: SpecToken) -> bool {
    t is Eq || t is NotEq
}

/// `<` and `>`.
pub open spec fn is_comparison(t: SpecToken) -> bool {
    t is Lt || t is Gt
}

/// `+` and `-`.
pub open spec fn is_sum(t: SpecToken) -> bool {
    t is Plus || t is Minus
}

/// `*` and `/`.
pub open spec fn is_product(t: SpecToken) -> bool {
    t is Asterisk || t is Slash
}

/// Whether binary operator `x` binds more loosely than `y`: equality below
/// comparison below sums below products.
pub open spec fn binds_looser(x: SpecToken, y: SpecToken) -> bool {
    ||| is_equality(x) && !is_equality(y)
    ||| is_comparison(x) && (is_sum(y) || is_product(y))
    ||| is_sum(x) && is_product(y)
}

/// In `a o1 b o2 c`, the operation of the operator that binds more tightly
/// is an operand of the other; when `o2` binds no more tightly than `o1`,
/// the first operation is the left operand of the second. So `a + b < c`
/// is `(a + b) < c`, `a < b + c` is `a < (b + c)`, `a - b - c` is
/// `(a - b) - c` and `a == b < c` is `a == (b < c)`.
pub proof fn law_operator_groups(
    ts: Seq<SpecToken>,
    errs: Seq<Seq<char>>,
    a: Seq<char>,
    o1: SpecToken,
    b: Seq<char>,
    o2: SpecToken,
    c: Seq<char>,
)
    requires
        starts_with_two_operators(ts, a, o1, b, o2, c),
        is_binary_operator(o1),
        is_binary_operator(o2),
    ensures
        binds_looser(o1, o2) ==> sp_expression(ts, PState { pos: 0, errs }, lowest()) == (
            Some(SpecExpr::Infix(
                o1,
                Box::new(SpecExpr::Ident(a)),
                Box::new(SpecExpr::Infix(o2, Box::new(SpecExpr::Ident(b)), Box::new(SpecExpr::Ident(c)))),
            )),
            PState { pos: 4, errs },
        ),
        !binds_looser(o1, o2) ==> sp_expression(ts, PState { pos: 0, errs }, lowest()) == (
            Some(SpecExpr::Infix(
                o2,
                Box::new(SpecExpr::Infix(o1, Box::new(SpecExpr::Ident(a)), Box::new(SpecExpr::Ident(b)))),
                Box::new(SpecExpr::Ident(c)),
            )),
            PState { pos: 4, errs },
        ),
{
    law_two_operators(ts, errs, a, o1, b, o2, c);
    assert(binds_looser(o1, o2) <==> prec_of(o1) < prec_of(o2));
}

/// The program `a o1 b o2 c;` is the one expression statement that
/// `law_two_operators` describes, and parsing it records no message.
pub proof fn law_program_of_two_operators(
    a: Seq<char>,
    o1: SpecToken,
    b: Seq<char>,
    o2: SpecToken,
    c: Seq<char>,
)
    requires
        is_binary_operator(o1),
        is_binary_operator(o2),
    ensures
        ({
            let ts = seq![
                SpecToken::Ident(a), o1, SpecToken::Ident(b), o2, SpecToken::Ident(c),
                SpecToken::Semicolon, SpecToken::Eof,
            ];
            sp_program(ts, PState { pos: 0, errs: Seq::empty() }, Seq::empty()) == (
                seq![SpecStmt::Expression(two_operator_tree(a, o1, b, o2, c))],
                PState { pos: 6, errs: Seq::<Seq<char>>::empty() },
            )
        }),
{
    let ts = seq![
        SpecToken::Ident(a), o1, SpecToken::Ident(b), o2, SpecToken::Ident(c),
        SpecToken::Semicolon, SpecToken::Eof,
    ];
    let e = Seq::<Seq<char>>::empty();
    let s0 = PState { pos: 0, errs: e };
    let s4 = PState { pos: 4, errs: e };
    let s5 = PState { pos: 5, errs: e };
    let s6 = PState { pos: 6, errs: e };
    let tree = two_operator_tree(a, o1, b, o2, c);
    assert(tok(ts, 5) == SpecToken::Semicolon);
    assert(tok(ts, 6) == SpecToken::Eof);
    law_two_operators(ts, e, a, o1, b, o2, c);
    assert(tok(ts, 0) == SpecToken::Ident(a));
    assert(skip_semicolon(ts, s4) == s5);
    assert(sp_expression_statement(ts, s0) == (Some(SpecStmt::Expression(tree)), s5));
    assert(sp_statement(ts, s0) == (Some(SpecStmt::Expression(tree)), s5));
    assert(adv(ts, s5) == s6);
    let acc = Seq::<SpecStmt>::empty().push(SpecStmt::Expression(tree));
    assert(sp_program(ts, s6, acc) == (acc, s6));
    assert(acc =~= seq![SpecStmt::Expression(tree)]);
}

} // verus!
