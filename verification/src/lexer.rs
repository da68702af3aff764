//! Tokens of the Ryha language and the lexer that turns source text into them.
use vstd::prelude::*;
use vstd::string::*;
use crate::text::{int_text, str_debug, debug_quoted, push_int};

verus! {

/// A lexical token.
#[derive(Debug, Clone, PartialEq)]
pub enum Token {
    Illegal,
    Eof,
    Ident(String),
    Int(i64),
    String(String),
    Assign,
    Plus,
    Minus,
    Bang,
    Asterisk,
    Slash,
    Lt,
    Gt,
    Eq,
    NotEq,
    Comma,
    Semicolon,
    LParen,
    RParen,
    LBrace,
    RBrace,
    Function,
    Let,
    True,
    False,
    If,
    Else,
    Return,
}

/// The mathematical value of a token: text payloads as character sequences.
pub enum SpecToken {
    Illegal,
    Eof,
    Ident(Seq<char>),
    Int(i64),
    Str(Seq<char>),
    Assign,
    Plus,
    Minus,
    Bang,
    Asterisk,
    Slash,
    Lt,
    Gt,
    Eq,
    NotEq,
    Comma,
    Semicolon,
    LParen,
    RParen,
    LBrace,
    RBrace,
    Function,
    Let,
    True,
    False,
    If,
    Else,
    Return,
}

impl View for Token {
    type V = SpecToken;

    open spec fn view(&self) -> SpecToken {
        match self {
            Token::Illegal => SpecToken::Illegal,
            Token::Eof => SpecToken::Eof,
            Token::Ident(s) => SpecToken::Ident(s@),
            Token::Int(i) => SpecToken::Int(*i),
            Token::String(s) => SpecToken::Str(s@),
            Token::Assign => SpecToken::Assign,
            Token::Plus => SpecToken::Plus,
            Token::Minus => SpecToken::Minus,
            Token::Bang => SpecToken::Bang,
            Token::Asterisk => SpecToken::Asterisk,
            Token::Slash => SpecToken::Slash,
            Token::Lt => SpecToken::Lt,
            Token::Gt => SpecToken::Gt,
            Token::Eq => SpecToken::Eq,
            Token::NotEq => SpecToken::NotEq,
            Token::Comma => SpecToken::Comma,
            Token::Semicolon => SpecToken::Semicolon,
            Token::LParen => SpecToken::LParen,
            Token::RParen => SpecToken::RParen,
            Token::LBrace => SpecToken::LBrace,
            Token::RBrace => SpecToken::RBrace,
            Token::Function => SpecToken::Function,
            Token::Let => SpecToken::Let,
            Token::True => SpecToken::True,
            Token::False => SpecToken::False,
            Token::If => SpecToken::If,
            Token::Else => SpecToken::Else,
            Token::Return => SpecToken::Return,
        }
    }
}

/// The text that `{:?}` prints for a token.
pub open spec fn token_debug(t: SpecToken) -> Seq<char> {
    match t {
        SpecToken::Illegal => "Illegal"@,
        SpecToken::Eof => "Eof"@,
        SpecToken::Ident(s) => "Ident("@ + str_debug(s) + ")"@,
        SpecToken::Int(i) => "Int("@ + int_text(i as int) + ")"@,
        SpecToken::Str(s) => "String("@ + str_debug(s) + ")"@,
        SpecToken::Assign => "Assign"@,
        SpecToken::Plus => "Plus"@,
        SpecToken::Minus => "Minus"@,
        SpecToken::Bang => "Bang"@,
        SpecToken::Asterisk => "Asterisk"@,
        SpecToken::Slash => "Slash"@,
        SpecToken::Lt => "Lt"@,
        SpecToken::Gt => "Gt"@,
        SpecToken::Eq => "Eq"@,
        SpecToken::NotEq => "NotEq"@,
        SpecToken::Comma => "Comma"@,
        SpecToken::Semicolon => "Semicolon"@,
        SpecToken::LParen => "LParen"@,
        SpecToken::RParen => "RParen"@,
        SpecToken::LBrace => "LBrace"@,
        SpecToken::RBrace => "RBrace"@,
        SpecToken::Function => "Function"@,
        SpecToken::Let => "Let"@,
        SpecToken::True => "True"@,
        SpecToken::False => "False"@,
        SpecToken::If => "If"@,
        SpecToken::Else => "Else"@,
        SpecToken::Return => "Return"@,
    }
}

impl Token {
    /// A copy of this token.
    pub fn duplicate(&self) -> (r: Token)
        ensures
            r@ == self@,
    {
        match self {
            Token::Illegal => Token::Illegal,
            Token::Eof => Token::Eof,
            Token::Ident(s) => Token::Ident(s.clone()),
            Token::Int(i) => Token::Int(*i),
            Token::String(s) => Token::String(s.clone()),
            Token::Assign => Token::Assign,
            Token::Plus => Token::Plus,
            Token::Minus => Token::Minus,
            Token::Bang => Token::Bang,
            Token::Asterisk => Token::Asterisk,
            Token::Slash => Token::Slash,
            Token::Lt => Token::Lt,
            Token::Gt => Token::Gt,
            Token::Eq => Token::Eq,
            Token::NotEq => Token::NotEq,
            Token::Comma => Token::Comma,
            Token::Semicolon => Token::Semicolon,
            Token::LParen => Token::LParen,
            Token::RParen => Token::RParen,
            Token::LBrace => Token::LBrace,
            Token::RBrace => Token::RBrace,
            Token::Function => Token::Function,
            Token::Let => Token::Let,
            Token::True => Token::True,
            Token::False => Token::False,
            Token::If => Token::If,
            Token::Else => Token::Else,
            Token::Return => Token::Return,
        }
    }

    /// Whether two tokens are equal (same kind and same payload).
    pub fn equals(&self, other: &Token) -> (r: bool)
        ensures
            r == (self@ == other@),
    {
        match (self, other) {
            (Token::Ident(a), Token::Ident(b)) => a.eq(b),
            (Token::String(a), Token::String(b)) => a.eq(b),
            (Token::Int(a), Token::Int(b)) => *a == *b,
            (Token::Illegal, Token::Illegal) => true,
            (Token::Eof, Token::Eof) => true,
            (Token::Assign, Token::Assign) => true,
            (Token::Plus, Token::Plus) => true,
            (Token::Minus, Token::Minus) => true,
            (Token::Bang, Token::Bang) => true,
            (Token::Asterisk, Token::Asterisk) => true,
            (Token::Slash, Token::Slash) => true,
            (Token::Lt, Token::Lt) => true,
            (Token::Gt, Token::Gt) => true,
            (Token::Eq, Token::Eq) => true,
            (Token::NotEq, Token::NotEq) => true,
            (Token::Comma, Token::Comma) => true,
            (Token::Semicolon, Token::Semicolon) => true,
            (Token::LParen, Token::LParen) => true,
            (Token::RParen, Token::RParen) => true,
            (Token::LBrace, Token::LBrace) => true,
            (Token::RBrace, Token::RBrace) => true,
            (Token::Function, Token::Function) => true,
            (Token::Let, Token::Let) => true,
            (Token::True, Token::True) => true,
            (Token::False, Token::False) => true,
            (Token::If, Token::If) => true,
            (Token::Else, Token::Else) => true,
            (Token::Return, Token::Return) => true,
            _ => false,
        }
    }

    /// The text that `{:?}` prints for this token.
    pub fn debug_text(&self) -> (r: String)
        ensures
            r@ == token_debug(self@),
    {
        match self {
            Token::Ident(s) => {
                let mut r = String::from_str("Ident(");
                let q = debug_quoted(s.as_str());
                r.append(q.as_str());
                r.append(")");
                r
            },
            Token::Int(i) => {
                let mut r = String::from_str("Int(");
                push_int(&mut r, *i);
                r.append(")");
                r
            },
            Token::String(s) => {
                let mut r = String::from_str("String(");
                let q = debug_quoted(s.as_str());
                r.append(q.as_str());
                r.append(")");
                r
            },
            Token::Illegal => String::from_str("Illegal"),
            Token::Eof => String::from_str("Eof"),
            Token::Assign => String::from_str("Assign"),
            Token::Plus => String::from_str("Plus"),
            Token::Minus => String::from_str("Minus"),
            Token::Bang => String::from_str("Bang"),
            Token::Asterisk => String::from_str("Asterisk"),
            Token::Slash => String::from_str("Slash"),
            Token::Lt => String::from_str("Lt"),
            Token::Gt => String::from_str("Gt"),
            Token::Eq => String::from_str("Eq"),
            Token::NotEq => String::from_str("NotEq"),
            Token::Comma => String::from_str("Comma"),
            Token::Semicolon => String::from_str("Semicolon"),
            Token::LParen => String::from_str("LParen"),
            Token::RParen => String::from_str("RParen"),
            Token::LBrace => String::from_str("LBrace"),
            Token::RBrace => String::from_str("RBrace"),
            Token::Function => String::from_str("Function"),
            Token::Let => String::from_str("Let"),
            Token::True => String::from_str("True"),
            Token::False => String::from_str("False"),
            Token::If => String::from_str("If"),
            Token::Else => String::from_str("Else"),
            Token::Return => String::from_str("Return"),
        }
    }
}


/// Characters that separate tokens and are otherwise ignored.
pub open spec fn is_space(c: char) -> bool {
    c == ' ' || c == '\t' || c == '\n' || c == '\r'
}

/// Characters of identifiers and keywords: ASCII letters and `_`.
pub open spec fn is_letter(c: char) -> bool {
    ('a' <= c && c <= 'z') || ('A' <= c && c <= 'Z') || c == '_'
}

/// ASCII decimal digits.
pub open spec fn is_digit(c: char) -> bool {
    '0' <= c && c <= '9'
}

/// The first position at or after `p` that is not a space (or the end).
pub open spec fn skip_spaces(s: Seq<char>, p: int) -> int
    decreases s.len() - p,
{
    if 0 <= p < s.len() && is_space(s[p]) {
        skip_spaces(s, p + 1)
    } else {
        p
    }
}

/// The end of the run of letters that starts at `p`.
pub open spec fn letters_end(s: Seq<char>, p: int) -> int
    decreases s.len() - p,
{
    if 0 <= p < s.len() && is_letter(s[p]) {
        letters_end(s, p + 1)
    } else {
        p
    }
}

/// The end of the run of digits that starts at `p`.
pub open spec fn digits_end(s: Seq<char>, p: int) -> int
    decreases s.len() - p,
{
    if 0 <= p < s.len() && is_digit(s[p]) {
        digits_end(s, p + 1)
    } else {
        p
    }
}

/// The position of the first `"` at or after `p` (or the end).
pub open spec fn quote_end(s: Seq<char>, p: int) -> int
    decreases s.len() - p,
{
    if 0 <= p < s.len() && s[p] != '"' {
        quote_end(s, p + 1)
    } else {
        p
    }
}

/// The value of a decimal digit character.
pub open spec fn digit_value(c: char) -> int {
    (c as int) - ('0' as int)
}

/// The number written by the digits `s[a..b]`.
pub open spec fn digits_value(s: Seq<char>, a: int, b: int) -> int
    decreases b - a,
{
    if b <= a {
        0
    } else {
        digits_value(s, a, b - 1) * 10 + digit_value(s[b - 1])
    }
}

/// The token a word of letters stands for: a keyword, or an identifier.
pub open spec fn keyword_or_ident(w: Seq<char>) -> SpecToken {
    if w == "fn"@ {
        SpecToken::Function
    } else if w == "let"@ {
        SpecToken::Let
    } else if w == "true"@ {
        SpecToken::True
    } else if w == "false"@ {
        SpecToken::False
    } else if w == "if"@ {
        SpecToken::If
    } else if w == "else"@ {
        SpecToken::Else
    } else if w == "return"@ {
        SpecToken::Return
    } else {
        SpecToken::Ident(w)
    }
}

/// The token for a single character that stands alone (`None` for any other).
pub open spec fn single_char_token(c: char) -> Option<SpecToken> {
    if c == '+' { Some(SpecToken::Plus) }
    else if c == '-' { Some(SpecToken::Minus) }
    else if c == '*' { Some(SpecToken::Asterisk) }
    else if c == '/' { Some(SpecToken::Slash) }
    else if c == '<' { Some(SpecToken::Lt) }
    else if c == '>' { Some(SpecToken::Gt) }
    else if c == ',' { Some(SpecToken::Comma) }
    else if c == ';' { Some(SpecToken::Semicolon) }
    else if c == '(' { Some(SpecToken::LParen) }
    else if c == ')' { Some(SpecToken::RParen) }
    else if c == '{' { Some(SpecToken::LBrace) }
    else if c == '}' { Some(SpecToken::RBrace) }
    else { None }
}

/// The token that starts at position `p` of `s` (after any spaces), and the
/// position just after it.
///
/// `=`/`==` and `!`/`!=` take the longer form when they can; a `"` opens a
/// string literal that runs to the next `"` or to the end of the input; a run
/// of letters is a keyword or an identifier; a run of digits is an integer
/// literal, or `Illegal` when its value does not fit in an `i64`; any other
/// character is `Illegal`. At the end of the input the token is `Eof`.
pub open spec fn lex(s: Seq<char>, p: int) -> (SpecToken, int) {
    let q = skip_spaces(s, p);
    if q < 0 || q >= s.len() {
        (SpecToken::Eof, q)
    } else {
        let c = s[q];
        if c == '=' {
            if q + 1 < s.len() && s[q + 1] == '=' {
                (SpecToken::Eq, q + 2)
            } else {
                (SpecToken::Assign, q + 1)
            }
        } else if c == '!' {
            if q + 1 < s.len() && s[q + 1] == '=' {
                (SpecToken::NotEq, q + 2)
            } else {
                (SpecToken::Bang, q + 1)
            }
        } else if c == '"' {
            let e = quote_end(s, q + 1);
            (SpecToken::Str(s.subrange(q + 1, e)), if e < s.len() { e + 1 } else { e })
        } else if is_letter(c) {
            let e = letters_end(s, q);
            (keyword_or_ident(s.subrange(q, e)), e)
        } else if is_digit(c) {
            let e = digits_end(s, q);
            let v = digits_value(s, q, e);
            if v <= i64::MAX {
                (SpecToken::Int(v as i64), e)
            } else {
                (SpecToken::Illegal, e)
            }
        } else {
            match single_char_token(c) {
                Some(t) => (t, q + 1),
                None => (SpecToken::Illegal, q + 1),
            }
        }
    }
}

/// The tokens of `s` from position `p` on, up to and including the first `Eof`.
pub open spec fn tokens_from(s: Seq<char>, p: int) -> Seq<SpecToken>
    decreases s.len() - p,
{
    let (t, q) = lex(s, p);
    if t is Eof {
        seq![SpecToken::Eof]
    } else if p < q <= s.len() {
        seq![t] + tokens_from(s, q)
    } else {
        seq![t]
    }
}

/// The tokens of a whole source text, ending with `Eof`.
pub open spec fn tokenize(s: Seq<char>) -> Seq<SpecToken> {
    tokens_from(s, 0)
}

/// Turns source text into tokens, one at a time.
pub struct Lexer {
    input: Vec<char>,
    position: usize,
}

fn space_char(c: char) -> (r: bool)
    ensures
        r == is_space(c),
{
    c == ' ' || c == '\t' || c == '\n' || c == '\r'
}

fn letter_char(c: char) -> (r: bool)
    ensures
        r == is_letter(c),
{
    ('a' <= c && c <= 'z') || ('A' <= c && c <= 'Z') || c == '_'
}

fn digit_char_of(c: char) -> (r: bool)
    ensures
        r == is_digit(c),
{
    '0' <= c && c <= '9'
}

fn single_char(c: char) -> (r: Option<Token>)
    ensures
        match r {
            Some(t) => single_char_token(c) == Some(t@),
            None => single_char_token(c) is None,
        },
{
    if c == '+' { Some(Token::Plus) }
    else if c == '-' { Some(Token::Minus) }
    else if c == '*' { Some(Token::Asterisk) }
    else if c == '/' { Some(Token::Slash) }
    else if c == '<' { Some(Token::Lt) }
    else if c == '>' { Some(Token::Gt) }
    else if c == ',' { Some(Token::Comma) }
    else if c == ';' { Some(Token::Semicolon) }
    else if c == '(' { Some(Token::LParen) }
    else if c == ')' { Some(Token::RParen) }
    else if c == '{' { Some(Token::LBrace) }
    else if c == '}' { Some(Token::RBrace) }
    else { None }
}

fn word_token(w: String) -> (t: Token)
    ensures
        t@ == keyword_or_ident(w@),
{
    if w.eq(&String::from_str("fn")) {
        Token::Function
    } else if w.eq(&String::from_str("let")) {
        Token::Let
    } else if w.eq(&String::from_str("true")) {
        Token::True
    } else if w.eq(&String::from_str("false")) {
        Token::False
    } else if w.eq(&String::from_str("if")) {
        Token::If
    } else if w.eq(&String::from_str("else")) {
        Token::Else
    } else if w.eq(&String::from_str("return")) {
        Token::Return
    } else {
        Token::Ident(w)
    }
}

proof fn lemma_digits_value_nonneg(s: Seq<char>, a: int, b: int)
    requires
        forall|k: int| a <= k < b ==> is_digit(#[trigger] s[k]),
    ensures
        digits_value(s, a, b) >= 0,
    decreases b - a,
{
    if b > a {
        lemma_digits_value_nonneg(s, a, b - 1);
    }
}

impl Lexer {
    #[verifier::type_invariant]
    spec fn inv(self) -> bool {
        self.position <= self.input@.len()
    }

    /// The characters of the source text.
    pub closed spec fn text(&self) -> Seq<char> {
        self.input@
    }

    /// The position of the next character to read.
    pub closed spec fn pos(&self) -> nat {
        self.position as nat
    }

    /// A lexer at the start of `input`.
    pub fn new(input: &str) -> (l: Lexer)
        ensures
            l.text() == input@,
            l.pos() == 0,
    {
        let mut chars: Vec<char> = Vec::new();
        for c in it: input.chars()
            invariant
                chars@ == it.seq().take(it.index() as int),
        {
            chars.push(c);
            assert(chars@ =~= it.seq().take(it.index() + 1));
        }
        assert(chars@ =~= input@);
        Lexer { input: chars, position: 0 }
    }

    /// Collects `self.input[a..b]` into a `String`.
    fn collect(&self, a: usize, b: usize) -> (r: String)
        requires
            a <= b <= self.input@.len(),
        ensures
            r@ == self.input@.subrange(a as int, b as int),
    {
        let mut r = String::new();
        let mut k = a;
        while k < b
            invariant
                a <= k <= b <= self.input@.len(),
                r@ == self.input@.subrange(a as int, k as int),
            decreases b - k,
        {
            crate::text::push_char(&mut r, self.input[k]);
            k = k + 1;
            assert(r@ =~= self.input@.subrange(a as int, k as int));
        }
        r
    }

    /// Reads the next token and moves past it.
    pub fn next_token(&mut self) -> (t: Token)
        ensures
            old(self).pos() <= old(self).text().len(),
            final(self).text() == old(self).text(),
            (t@, final(self).pos() as int) == lex(old(self).text(), old(self).pos() as int),
    {
        proof { use_type_invariant(&*self); }
        let ghost s = self.input@;
        let ghost p0 = self.position as int;
        assert(p0 == self.pos());
        let len = self.input.len();
        let mut q = self.position;
        while q < len && space_char(self.input[q])
            invariant
                s == self.input@,
                len == s.len(),
                p0 <= q <= len,
                skip_spaces(s, p0) == skip_spaces(s, q as int),
            decreases len - q,
        {
            q = q + 1;
        }
        if q >= len {
            self.position = q;
            return Token::Eof;
        }
        let c = self.input[q];
        if c == '=' {
            if q + 1 < len && self.input[q + 1] == '=' {
                self.position = q + 2;
                Token::Eq
            } else {
                self.position = q + 1;
                Token::Assign
            }
        } else if c == '!' {
            if q + 1 < len && self.input[q + 1] == '=' {
                self.position = q + 2;
                Token::NotEq
            } else {
                self.position = q + 1;
                Token::Bang
            }
        } else if c == '"' {
            let mut e = q + 1;
            while e < len && self.input[e] != '"'
                invariant
                    s == self.input@,
                    len == s.len(),
                    q + 1 <= e <= len,
                    quote_end(s, q + 1) == quote_end(s, e as int),
                decreases len - e,
            {
                e = e + 1;
            }
            let text = self.collect(q + 1, e);
            self.position = if e < len { e + 1 } else { e };
            Token::String(text)
        } else if letter_char(c) {
            let mut e = q;
            while e < len && letter_char(self.input[e])
                invariant
                    s == self.input@,
                    len == s.len(),
                    q <= e <= len,
                    letters_end(s, q as int) == letters_end(s, e as int),
                decreases len - e,
            {
                e = e + 1;
            }
            let word = self.collect(q, e);
            self.position = e;
            word_token(word)
        } else if digit_char_of(c) {
            let mut e = q;
            let mut v: i64 = 0;
            let mut overflow = false;
            while e < len && digit_char_of(self.input[e])
                invariant
                    s == self.input@,
                    len == s.len(),
                    q <= e <= len,
                    digits_end(s, q as int) == digits_end(s, e as int),
                    forall|k: int| q <= k < e ==> is_digit(#[trigger] s[k]),
                    !overflow ==> v == digits_value(s, q as int, e as int),
                    overflow ==> digits_value(s, q as int, e as int) > i64::MAX,
                    v >= 0,
                decreases len - e,
            {
                let d = self.input[e];
                let dv: i64 = if d == '0' { 0 } else if d == '1' { 1 } else if d == '2' { 2 }
                    else if d == '3' { 3 } else if d == '4' { 4 } else if d == '5' { 5 }
                    else if d == '6' { 6 } else if d == '7' { 7 } else if d == '8' { 8 } else { 9 };
                assert(dv == digit_value(d));
                proof {
                    lemma_digits_value_nonneg(s, q as int, e as int);
                }
                if !overflow {
                    if v <= (i64::MAX - dv) / 10 {
                        v = v * 10 + dv;
                    } else {
                        overflow = true;
                    }
                }
                e = e + 1;
                assert(digits_value(s, q as int, e as int) == digits_value(s, q as int, e - 1) * 10 + digit_value(s[e - 1]));
            }
            self.position = e;
            if overflow {
                Token::Illegal
            } else {
                Token::Int(v)
            }
        } else {
            self.position = q + 1;
            match single_char(c) {
                Some(t) => t,
                None => Token::Illegal,
            }
        }
    }
}

/// The end of a run found by scanning from `p` lies between `p` and the end
/// of the text.
proof fn lemma_scan_bounds(s: Seq<char>, p: int)
    requires
        0 <= p <= s.len(),
    ensures
        p <= skip_spaces(s, p) <= s.len(),
        p <= letters_end(s, p) <= s.len(),
        p <= digits_end(s, p) <= s.len(),
        p <= quote_end(s, p) <= s.len(),
        p < s.len() && is_letter(s[p]) ==> letters_end(s, p) > p,
        p < s.len() && is_digit(s[p]) ==> digits_end(s, p) > p,
    decreases s.len() - p,
{
    if p < s.len() {
        lemma_scan_bounds(s, p + 1);
    }
}

/// Every token but `Eof` moves the position forward, and no token moves it
/// past the end of the text.
pub proof fn lemma_lex_progress(s: Seq<char>, p: int)
    requires
        0 <= p <= s.len(),
    ensures
        p <= lex(s, p).1 <= s.len(),
        !(lex(s, p).0 is Eof) ==> p < lex(s, p).1,
{
    lemma_scan_bounds(s, p);
    let q = skip_spaces(s, p);
    if q < s.len() {
        lemma_scan_bounds(s, q);
        if q + 1 <= s.len() {
            lemma_scan_bounds(s, q + 1);
        }
    }
}

/// The token sequence of a text ends with `Eof` and holds no other `Eof`.
pub proof fn lemma_tokens_from_shape(s: Seq<char>, p: int)
    requires
        0 <= p <= s.len(),
    ensures
        tokens_from(s, p).len() >= 1,
        tokens_from(s, p).last() is Eof,
        forall|k: int| 0 <= k < tokens_from(s, p).len() - 1 ==> !(#[trigger] tokens_from(s, p)[k] is Eof),
    decreases s.len() - p,
{
    lemma_lex_progress(s, p);
    let (t, q) = lex(s, p);
    if !(t is Eof) {
        lemma_tokens_from_shape(s, q);
        let rest = tokens_from(s, q);
        assert forall|k: int| 0 <= k < tokens_from(s, p).len() - 1 implies !(#[trigger] tokens_from(s, p)[k] is Eof) by {
            if k > 0 {
                assert(tokens_from(s, p)[k] == rest[k - 1]);
            }
        }
    }
}

} // verus!
