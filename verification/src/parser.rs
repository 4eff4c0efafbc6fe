//! A tokenizer and recursive-descent parser for equations between terms.
use vstd::prelude::*;
use crate::fol::{Term, STerm, Equality, SEquality, terms_view, func1, func2};
use crate::strings::{owned, is_digit, nat_str, nat_digits};

verus! {

/// Whether std counts the character as alphabetic or numeric.
pub uninterp spec fn char_is_alphanumeric(c: char) -> bool;

/// An ASCII letter or digit.
pub open spec fn ascii_alphanumeric(c: char) -> bool {
    ('a' <= c && c <= 'z') || ('A' <= c && c <= 'Z') || ('0' <= c && c <= '9')
}

/// Trusted: calls `char::is_alphanumeric`. Its result is named; beyond that only the ASCII
/// range is stated, where std's documentation and tables make exactly the letters and digits
/// alphanumeric. Outside ASCII the Unicode tables decide, and nothing is stated.
#[verifier::external_body]
fn is_alphanumeric(c: char) -> (r: bool)
    ensures
        r == char_is_alphanumeric(c),
        (c as u32) < 128 ==> (r == ascii_alphanumeric(c)),
{
    c.is_alphanumeric()
}

/// The value of a token.
pub enum SToken {
    Ident(Seq<char>),
    Number(Seq<char>),
    Plus,
    Star,
    Minus,
    Ampersand,
    Pipe,
    Bang,
    Equal,
    LParen,
    RParen,
    Comma,
    Slash,
}

#[derive(Debug)]
enum Token {
    Ident(String),
    Number(String),
    Plus,
    Star,
    Minus,
    Ampersand,
    Pipe,
    Bang,
    Equal,
    LParen,
    RParen,
    Comma,
    Slash,
}

impl View for Token {
    type V = SToken;

    closed spec fn view(&self) -> SToken {
        match self {
            Token::Ident(s) => SToken::Ident(s@),
            Token::Number(s) => SToken::Number(s@),
            Token::Plus => SToken::Plus,
            Token::Star => SToken::Star,
            Token::Minus => SToken::Minus,
            Token::Ampersand => SToken::Ampersand,
            Token::Pipe => SToken::Pipe,
            Token::Bang => SToken::Bang,
            Token::Equal => SToken::Equal,
            Token::LParen => SToken::LParen,
            Token::RParen => SToken::RParen,
            Token::Comma => SToken::Comma,
            Token::Slash => SToken::Slash,
        }
    }
}

pub open spec fn tokens_view(s: Seq<Token>) -> Seq<SToken> {
    Seq::new(s.len(), |i: int| s[i]@)
}

pub open spec fn is_space(c: char) -> bool {
    c == ' ' || c == '\t' || c == '\r' || c == '\n'
}

pub open spec fn is_ident_start(c: char) -> bool {
    ('a' <= c && c <= 'z') || ('A' <= c && c <= 'Z') || c == '_'
}

pub open spec fn is_ident_char(c: char) -> bool {
    char_is_alphanumeric(c) || c == '_'
}

/// The token that a single punctuation character stands for.
pub open spec fn single_token(c: char) -> Option<SToken> {
    if c == '+' { Some(SToken::Plus) }
    else if c == '*' || c == '·' { Some(SToken::Star) }
    else if c == '-' { Some(SToken::Minus) }
    else if c == '&' || c == '∧' { Some(SToken::Ampersand) }
    else if c == '|' || c == '∨' { Some(SToken::Pipe) }
    else if c == '!' || c == '¬' || c == '~' { Some(SToken::Bang) }
    else if c == '=' { Some(SToken::Equal) }
    else if c == '(' { Some(SToken::LParen) }
    else if c == ')' { Some(SToken::RParen) }
    else if c == ',' { Some(SToken::Comma) }
    else if c == '/' { Some(SToken::Slash) }
    else { None }
}

/// The end of the run of decimal digits starting at `i`.
pub open spec fn digit_end(s: Seq<char>, i: int) -> int
    decreases s.len() - i,
{
    if 0 <= i < s.len() && is_digit(s[i]) { digit_end(s, i + 1) } else { i }
}

/// The end of the run of identifier characters starting at `i`.
pub open spec fn ident_end(s: Seq<char>, i: int) -> int
    decreases s.len() - i,
{
    if 0 <= i < s.len() && is_ident_char(s[i]) { ident_end(s, i + 1) } else { i }
}

/// The tokens of `s` from position `i` on, or the message for the first bad character.
pub open spec fn tokenize_from(s: Seq<char>, i: int) -> Result<Seq<SToken>, Seq<char>>
    decreases s.len() - i,
{
    if i < 0 || i >= s.len() {
        Ok(Seq::empty())
    } else {
        let c = s[i];
        if is_space(c) {
            tokenize_from(s, i + 1)
        } else if single_token(c) is Some {
            match tokenize_from(s, i + 1) {
                Ok(r) => Ok(seq![single_token(c).unwrap()] + r),
                Err(e) => Err(e),
            }
        } else if is_digit(c) {
            let j = digit_end(s, i + 1);
            proof { lemma_digit_end(s, i + 1); }
            match tokenize_from(s, j) {
                Ok(r) => Ok(seq![SToken::Number(s.subrange(i, j))] + r),
                Err(e) => Err(e),
            }
        } else if is_ident_start(c) {
            let j = ident_end(s, i + 1);
            proof { lemma_ident_end(s, i + 1); }
            match tokenize_from(s, j) {
                Ok(r) => Ok(seq![SToken::Ident(s.subrange(i, j))] + r),
                Err(e) => Err(e),
            }
        } else {
            Err("Unexpected character: '"@ + seq![c] + "'"@)
        }
    }
}

pub proof fn lemma_digit_end(s: Seq<char>, i: int)
    requires 0 <= i <= s.len(),
    ensures i <= digit_end(s, i) <= s.len(),
    decreases s.len() - i,
{
    if i < s.len() && is_digit(s[i]) {
        lemma_digit_end(s, i + 1);
    }
}

pub proof fn lemma_ident_end(s: Seq<char>, i: int)
    requires 0 <= i <= s.len(),
    ensures i <= ident_end(s, i) <= s.len(),
    decreases s.len() - i,
{
    if i < s.len() && is_ident_char(s[i]) {
        lemma_ident_end(s, i + 1);
    }
}

/// Prepends the tokens already read to the outcome for the rest.
pub open spec fn prepend(acc: Seq<SToken>, r: Result<Seq<SToken>, Seq<char>>) -> Result<Seq<SToken>, Seq<char>> {
    match r {
        Ok(t) => Ok(acc + t),
        Err(e) => Err(e),
    }
}

/// Splits an algebraic or logical formula into tokens.
#[verifier::loop_isolation(false)]
fn tokenize(input: &str) -> (r: Result<Vec<Token>, String>)
    ensures
        r is Ok ==> tokenize_from(input@, 0) == Ok::<Seq<SToken>, Seq<char>>(tokens_view(r->Ok_0@)),
        r is Err ==> tokenize_from(input@, 0) == Err::<Seq<SToken>, Seq<char>>(r->Err_0@),
{
    let n = input.unicode_len();
    let mut tokens: Vec<Token> = Vec::new();
    let mut i: usize = 0;
    while i < n
        invariant
            n == input@.len(),
            i <= n,
            tokenize_from(input@, 0) == prepend(tokens_view(tokens@), tokenize_from(input@, i as int)),
        decreases n - i,
    {
        let c = input.get_char(i);
        let ghost s = input@;
        let ghost before = tokens_view(tokens@);
        if c == ' ' || c == '\t' || c == '\r' || c == '\n' {
            i += 1;
        } else {
            let single: Option<Token> =
                if c == '+' { Some(Token::Plus) }
                else if c == '*' || c == '·' { Some(Token::Star) }
                else if c == '-' { Some(Token::Minus) }
                else if c == '&' || c == '∧' { Some(Token::Ampersand) }
                else if c == '|' || c == '∨' { Some(Token::Pipe) }
                else if c == '!' || c == '¬' || c == '~' { Some(Token::Bang) }
                else if c == '=' { Some(Token::Equal) }
                else if c == '(' { Some(Token::LParen) }
                else if c == ')' { Some(Token::RParen) }
                else if c == ',' { Some(Token::Comma) }
                else if c == '/' { Some(Token::Slash) }
                else { None };
            match single {
                Some(t) => {
                    proof { assert(t@ == single_token(c).unwrap()); }
                    tokens.push(t);
                    proof {
                        assert(tokens_view(tokens@) =~= before.push(single_token(c).unwrap()));
                        match tokenize_from(s, i + 1) {
                            Ok(r) => { assert(before + (seq![single_token(c).unwrap()] + r) =~= before.push(single_token(c).unwrap()) + r); },
                            Err(e) => {},
                        }
                    }
                    i += 1;
                },
                None => {
                    if '0' <= c && c <= '9' {
                        let mut j: usize = i + 1;
                        while j < n && '0' <= input.get_char(j) && input.get_char(j) <= '9'
                            invariant
                                i < j <= n,
                                digit_end(s, i + 1) == digit_end(s, j as int),
                            decreases n - j,
                        {
                            j += 1;
                        }
                        proof { lemma_digit_end(s, j as int); }
                        let text = owned(input.substring_char(i, j));
                        tokens.push(Token::Number(text));
                        proof {
                            assert(tokens_view(tokens@) =~= before.push(SToken::Number(s.subrange(i as int, j as int))));
                            match tokenize_from(s, j as int) {
                                Ok(r) => { assert(before + (seq![SToken::Number(s.subrange(i as int, j as int))] + r) =~= before.push(SToken::Number(s.subrange(i as int, j as int))) + r); },
                                Err(e) => {},
                            }
                        }
                        i = j;
                    } else if ('a' <= c && c <= 'z') || ('A' <= c && c <= 'Z') || c == '_' {
                        let mut j: usize = i + 1;
                        while j < n && (is_alphanumeric(input.get_char(j)) || input.get_char(j) == '_')
                            invariant
                                i < j <= n,
                                ident_end(s, i + 1) == ident_end(s, j as int),
                            decreases n - j,
                        {
                            j += 1;
                        }
                        proof { lemma_ident_end(s, j as int); }
                        let text = owned(input.substring_char(i, j));
                        tokens.push(Token::Ident(text));
                        proof {
                            assert(tokens_view(tokens@) =~= before.push(SToken::Ident(s.subrange(i as int, j as int))));
                            match tokenize_from(s, j as int) {
                                Ok(r) => { assert(before + (seq![SToken::Ident(s.subrange(i as int, j as int))] + r) =~= before.push(SToken::Ident(s.subrange(i as int, j as int))) + r); },
                                Err(e) => {},
                            }
                        }
                        i = j;
                    } else {
                        let mut msg = owned("Unexpected character: '");
                        msg.append(input.substring_char(i, i + 1));
                        msg.append("'");
                        proof { assert(s.subrange(i as int, i + 1) =~= seq![c]); }
                        return Err(msg);
                    }
                },
            }
        }
    }
    proof { assert(tokens_view(tokens@) + Seq::<SToken>::empty() =~= tokens_view(tokens@)); }
    Ok(tokens)
}

/// How `Debug` prints a token.
pub open spec fn tok_debug(t: SToken) -> Seq<char> {
    match t {
        SToken::Ident(n) => "Ident(\""@ + n + "\")"@,
        SToken::Number(n) => "Number(\""@ + n + "\")"@,
        SToken::Plus => "Plus"@,
        SToken::Star => "Star"@,
        SToken::Minus => "Minus"@,
        SToken::Ampersand => "Ampersand"@,
        SToken::Pipe => "Pipe"@,
        SToken::Bang => "Bang"@,
        SToken::Equal => "Equal"@,
        SToken::LParen => "LParen"@,
        SToken::RParen => "RParen"@,
        SToken::Comma => "Comma"@,
        SToken::Slash => "Slash"@,
    }
}

/// A parsed term and the position after it, or an error message.
pub type PRes = Result<(STerm, int), Seq<char>>;

/// The message when `expected` is not the token at `p`.
pub open spec fn expect_msg(t: Seq<SToken>, p: int, expected: SToken) -> Seq<char> {
    if 0 <= p < t.len() {
        "Expected "@ + tok_debug(expected) + ", found "@ + tok_debug(t[p])
    } else {
        "Expected "@ + tok_debug(expected) + ", found EOF"@
    }
}

pub open spec fn is_tok(t: Seq<SToken>, p: int, k: SToken) -> bool {
    0 <= p < t.len() && t[p] == k
}

/// primary := '(' additive ')' | number | ident [ '(' args ')' ] | '-' primary | '!' primary
pub open spec fn p_primary(t: Seq<SToken>, pos: int) -> PRes
    decreases t.len() - pos, 0nat
    when 0 <= pos <= t.len()
{
    if pos >= t.len() {
        Err("Unexpected end of expression"@)
    } else {
        match t[pos] {
            SToken::LParen => match p_add(t, pos + 1) {
                Ok((e, p)) => if is_tok(t, p, SToken::RParen) { Ok((e, p + 1)) } else { Err(expect_msg(t, p, SToken::RParen)) },
                Err(m) => Err(m),
            },
            SToken::Number(n) => Ok((STerm::Const(n), pos + 1)),
            SToken::Ident(name) => if is_tok(t, pos + 1, SToken::LParen) {
                p_call(t, pos + 2, name)
            } else {
                Ok((STerm::Const(name), pos + 1))
            },
            SToken::Minus => match p_primary(t, pos + 1) {
                Ok((e, p)) => Ok((STerm::Func("-"@, seq![e]), p)),
                Err(m) => Err(m),
            },
            SToken::Bang => match p_primary(t, pos + 1) {
                Ok((e, p)) => Ok((STerm::Func("!"@, seq![e]), p)),
                Err(m) => Err(m),
            },
            tok => Err("Unexpected token in expression: "@ + tok_debug(tok)),
        }
    }
}

/// The arguments of a call whose '(' has been read.
pub open spec fn p_call(t: Seq<SToken>, pos: int, name: Seq<char>) -> PRes
    decreases t.len() - pos, 4nat
    when 0 <= pos <= t.len()
{
    if is_tok(t, pos, SToken::RParen) {
        Ok((STerm::Func(name, Seq::empty()), pos + 1))
    } else {
        p_arglist(t, pos, Seq::empty(), name)
    }
}

/// args := additive (',' additive)* ')'
pub open spec fn p_arglist(t: Seq<SToken>, pos: int, acc: Seq<STerm>, name: Seq<char>) -> PRes
    decreases t.len() - pos, 3nat
    when 0 <= pos <= t.len()
{
    match p_add(t, pos) {
        Ok((e, p)) => if p <= pos || p > t.len() {
            Err(Seq::empty())
        } else if is_tok(t, p, SToken::Comma) {
            p_arglist(t, p + 1, acc.push(e), name)
        } else if is_tok(t, p, SToken::RParen) {
            Ok((STerm::Func(name, acc.push(e)), p + 1))
        } else {
            Err("Expected ',' or ')' in argument list"@)
        },
        Err(m) => Err(m),
    }
}

/// The term for a multiplicative operator token.
pub open spec fn mul_op(k: SToken) -> Option<Seq<char>> {
    match k {
        SToken::Star => Some("*"@),
        SToken::Ampersand => Some("&"@),
        SToken::Slash => Some("/"@),
        _ => None,
    }
}

/// multiplicative := primary (('*' | '&' | '/') primary)*
pub open spec fn p_mul(t: Seq<SToken>, pos: int) -> PRes
    decreases t.len() - pos, 1nat
    when 0 <= pos <= t.len()
{
    match p_primary(t, pos) {
        Ok((l, p)) => if p <= pos || p > t.len() { Err(Seq::empty()) } else { p_mul_rest(t, p, l) },
        Err(m) => Err(m),
    }
}

pub open spec fn p_mul_rest(t: Seq<SToken>, pos: int, left: STerm) -> PRes
    decreases t.len() - pos, 1nat
    when 0 <= pos <= t.len()
{
    if pos < t.len() && mul_op(t[pos]) is Some {
        match p_primary(t, pos + 1) {
            Ok((r, p)) => if p <= pos || p > t.len() {
                Err(Seq::empty())
            } else {
                p_mul_rest(t, p, STerm::Func(mul_op(t[pos]).unwrap(), seq![left, r]))
            },
            Err(m) => Err(m),
        }
    } else {
        Ok((left, pos))
    }
}

/// The term that an additive operator builds from its operands.
pub open spec fn add_combine(k: SToken, l: STerm, r: STerm) -> STerm {
    match k {
        SToken::Plus => STerm::Func("+"@, seq![l, r]),
        SToken::Minus => STerm::Func("+"@, seq![l, STerm::Func("-"@, seq![r])]),
        _ => STerm::Func("|"@, seq![l, r]),
    }
}

pub open spec fn is_add_op(k: SToken) -> bool {
    k is Plus || k is Minus || k is Pipe
}

/// additive := multiplicative (('+' | '-' | '|') multiplicative)*, where `a - b` is `a + -(b)`.
pub open spec fn p_add(t: Seq<SToken>, pos: int) -> PRes
    decreases t.len() - pos, 2nat
    when 0 <= pos <= t.len()
{
    match p_mul(t, pos) {
        Ok((l, p)) => if p <= pos || p > t.len() { Err(Seq::empty()) } else { p_add_rest(t, p, l) },
        Err(m) => Err(m),
    }
}

pub open spec fn p_add_rest(t: Seq<SToken>, pos: int, left: STerm) -> PRes
    decreases t.len() - pos, 2nat
    when 0 <= pos <= t.len()
{
    if pos < t.len() && is_add_op(t[pos]) {
        match p_mul(t, pos + 1) {
            Ok((r, p)) => if p <= pos || p > t.len() {
                Err(Seq::empty())
            } else {
                p_add_rest(t, p, add_combine(t[pos], left, r))
            },
            Err(m) => Err(m),
        }
    } else {
        Ok((left, pos))
    }
}

/// What parsing a conjecture gives: `additive '=' additive` over all the tokens.
pub open spec fn spec_parse_conjecture(s: Seq<char>) -> Result<SEquality, Seq<char>> {
    match tokenize_from(s, 0) {
        Err(e) => Err(e),
        Ok(t) => match p_add(t, 0) {
            Err(m) => Err(m),
            Ok((l, p)) => if !is_tok(t, p, SToken::Equal) {
                Err(expect_msg(t, p, SToken::Equal))
            } else {
                match p_add(t, p + 1) {
                    Err(m) => Err(m),
                    Ok((r, q)) => if q < t.len() {
                        Err("Trailing unparsed tokens from position "@ + nat_digits(q as nat))
                    } else {
                        Ok(SEquality { lhs: l, rhs: r })
                    },
                }
            },
        },
    }
}

/// How `Debug` prints a token.
fn token_debug(t: &Token) -> (r: String)
    ensures r@ == tok_debug(t@),
{
    match t {
        Token::Ident(n) => {
            let mut s = owned("Ident(\"");
            s.append(n.as_str());
            s.append("\")");
            s
        },
        Token::Number(n) => {
            let mut s = owned("Number(\"");
            s.append(n.as_str());
            s.append("\")");
            s
        },
        Token::Plus => owned("Plus"),
        Token::Star => owned("Star"),
        Token::Minus => owned("Minus"),
        Token::Ampersand => owned("Ampersand"),
        Token::Pipe => owned("Pipe"),
        Token::Bang => owned("Bang"),
        Token::Equal => owned("Equal"),
        Token::LParen => owned("LParen"),
        Token::RParen => owned("RParen"),
        Token::Comma => owned("Comma"),
        Token::Slash => owned("Slash"),
    }
}

/// The outcome of a parse step as a value.
pub open spec fn pres_of(r: Result<Term, String>, p: int) -> PRes {
    match r {
        Ok(t) => Ok((t@, p)),
        Err(m) => Err(m@),
    }
}

/// Recursive descent over a token list.
struct Parser {
    tokens: Vec<Token>,
    pos: usize,
}

impl Parser {
    spec fn toks(&self) -> Seq<SToken> {
        tokens_view(self.tokens@)
    }

    fn is_at(&self, k: u8) -> (r: bool)
        ensures
            k == 0 ==> r == is_tok(self.toks(), self.pos as int, SToken::RParen),
            k == 1 ==> r == is_tok(self.toks(), self.pos as int, SToken::Comma),
            k == 2 ==> r == is_tok(self.toks(), self.pos as int, SToken::LParen),
            k == 3 ==> r == is_tok(self.toks(), self.pos as int, SToken::Equal),
    {
        if self.pos >= self.tokens.len() {
            return false;
        }
        let ghost tk = self.toks()[self.pos as int];
        assert(tk == self.tokens@[self.pos as int]@);
        match &self.tokens[self.pos] {
            Token::RParen => k == 0,
            Token::Comma => k == 1,
            Token::LParen => k == 2,
            Token::Equal => k == 3,
            _ => false,
        }
    }

    /// The message for a missing token `expected` at the current position.
    fn expect_error(&self, expected: Token) -> (r: String)
        ensures r@ == expect_msg(self.toks(), self.pos as int, expected@),
    {
        let mut m = owned("Expected ");
        m.append(token_debug(&expected).as_str());
        if self.pos < self.tokens.len() {
            m.append(", found ");
            m.append(token_debug(&self.tokens[self.pos]).as_str());
        } else {
            m.append(", found EOF");
        }
        m
    }

    #[verifier::loop_isolation(false)]
    fn parse_primary(&mut self) -> (r: Result<Term, String>)
        requires old(self).pos <= old(self).tokens@.len(),
        ensures
            final(self).tokens@ == old(self).tokens@,
            pres_of(r, final(self).pos as int) == p_primary(old(self).toks(), old(self).pos as int),
            r is Ok ==> old(self).pos < final(self).pos <= final(self).tokens@.len(),
        decreases old(self).tokens@.len() - old(self).pos, 0nat,
    {
        let ghost t = self.toks();
        let ghost pos = self.pos as int;
        let _n = self.tokens.len();
        if self.pos >= self.tokens.len() {
            return Err(owned("Unexpected end of expression"));
        }
        let ghost tk = t[pos];
        assert(tk == self.tokens@[pos]@);
        match &self.tokens[self.pos] {
            Token::LParen => {
                self.pos = self.pos + 1;
                let e = self.parse_additive()?;
                if self.is_at(0) {
                    self.pos = self.pos + 1;
                    Ok(e)
                } else {
                    Err(self.expect_error(Token::RParen))
                }
            },
            Token::Number(n) => {
                let c = Term::Const(n.clone());
                self.pos = self.pos + 1;
                Ok(c)
            },
            Token::Ident(name) => {
                let name = name.clone();
                self.pos = self.pos + 1;
                if self.is_at(2) {
                    self.pos = self.pos + 1;
                    self.parse_call(name)
                } else {
                    Ok(Term::Const(name))
                }
            },
            Token::Minus => {
                self.pos = self.pos + 1;
                let inner = self.parse_primary()?;
                Ok(func1("-", inner))
            },
            Token::Bang => {
                self.pos = self.pos + 1;
                let inner = self.parse_primary()?;
                Ok(func1("!", inner))
            },
            other => {
                let mut m = owned("Unexpected token in expression: ");
                m.append(token_debug(other).as_str());
                Err(m)
            },
        }
    }

    #[verifier::loop_isolation(false)]
    fn parse_call(&mut self, name: String) -> (r: Result<Term, String>)
        requires old(self).pos <= old(self).tokens@.len(),
        ensures
            final(self).tokens@ == old(self).tokens@,
            pres_of(r, final(self).pos as int) == p_call(old(self).toks(), old(self).pos as int, name@),
            r is Ok ==> old(self).pos < final(self).pos <= final(self).tokens@.len(),
        decreases old(self).tokens@.len() - old(self).pos, 4nat,
    {
        let _n = self.tokens.len();
        if self.is_at(0) {
            self.pos = self.pos + 1;
            let empty: Vec<Term> = Vec::new();
            proof { assert(terms_view(empty@) =~= Seq::<STerm>::empty()); }
            let r = Term::func(name.as_str(), empty);
            return Ok(r);
        }
        let ghost t = self.toks();
        let ghost pos0 = self.pos as int;
        let mut args: Vec<Term> = Vec::new();
        proof { assert(terms_view(args@) =~= Seq::<STerm>::empty()); }
        loop
            invariant
                self.tokens@ == old(self).tokens@,
                t == self.toks(),
                pos0 <= self.pos <= self.tokens@.len(),
                p_call(t, pos0, name@) == p_arglist(t, self.pos as int, terms_view(args@), name@),
            decreases self.tokens@.len() - self.pos,
        {
            let ghost p1 = self.pos as int;
            let ghost acc = terms_view(args@);
            let e = self.parse_additive()?;
            let ghost ev = e@;
            args.push(e);
            proof { assert(terms_view(args@) =~= acc.push(ev)); }
            if self.is_at(1) {
                self.pos = self.pos + 1;
            } else if self.is_at(0) {
                self.pos = self.pos + 1;
                return Ok(Term::func(name.as_str(), args));
            } else {
                return Err(owned("Expected ',' or ')' in argument list"));
            }
        }
    }

    #[verifier::loop_isolation(false)]
    fn parse_multiplicative(&mut self) -> (r: Result<Term, String>)
        requires old(self).pos <= old(self).tokens@.len(),
        ensures
            final(self).tokens@ == old(self).tokens@,
            pres_of(r, final(self).pos as int) == p_mul(old(self).toks(), old(self).pos as int),
            r is Ok ==> old(self).pos < final(self).pos <= final(self).tokens@.len(),
        decreases old(self).tokens@.len() - old(self).pos, 1nat,
    {
        let ghost t = self.toks();
        let ghost pos0 = self.pos as int;
        let _n = self.tokens.len();
        let mut left = self.parse_primary()?;
        loop
            invariant
                self.tokens@ == old(self).tokens@,
                t == self.toks(),
                pos0 < self.pos <= self.tokens@.len(),
                p_mul(t, pos0) == p_mul_rest(t, self.pos as int, left@),
            decreases self.tokens@.len() - self.pos,
        {
            if self.pos >= self.tokens.len() {
                return Ok(left);
            }
            let ghost p = self.pos as int;
            assert(t[p] == self.tokens@[p]@);
            let op: &str = match &self.tokens[self.pos] {
                Token::Star => "*",
                Token::Ampersand => "&",
                Token::Slash => "/",
                _ => { return Ok(left); },
            };
            proof { assert(op@ == mul_op(t[p]).unwrap()); }
            self.pos = self.pos + 1;
            let right = self.parse_primary()?;
            left = func2(op, left, right);
        }
    }

    #[verifier::loop_isolation(false)]
    fn parse_additive(&mut self) -> (r: Result<Term, String>)
        requires old(self).pos <= old(self).tokens@.len(),
        ensures
            final(self).tokens@ == old(self).tokens@,
            pres_of(r, final(self).pos as int) == p_add(old(self).toks(), old(self).pos as int),
            r is Ok ==> old(self).pos < final(self).pos <= final(self).tokens@.len(),
        decreases old(self).tokens@.len() - old(self).pos, 2nat,
    {
        let ghost t = self.toks();
        let ghost pos0 = self.pos as int;
        let _n = self.tokens.len();
        let mut left = self.parse_multiplicative()?;
        loop
            invariant
                self.tokens@ == old(self).tokens@,
                t == self.toks(),
                pos0 < self.pos <= self.tokens@.len(),
                p_add(t, pos0) == p_add_rest(t, self.pos as int, left@),
            decreases self.tokens@.len() - self.pos,
        {
            if self.pos >= self.tokens.len() {
                return Ok(left);
            }
            let ghost p = self.pos as int;
            assert(t[p] == self.tokens@[p]@);
            let kind: u8 = match &self.tokens[self.pos] {
                Token::Plus => 0,
                Token::Minus => 1,
                Token::Pipe => 2,
                _ => { return Ok(left); },
            };
            self.pos = self.pos + 1;
            let right = self.parse_multiplicative()?;
            if kind == 0 {
                left = func2("+", left, right);
            } else if kind == 1 {
                left = func2("+", left, func1("-", right));
            } else {
                left = func2("|", left, right);
            }
        }
    }
}

/// Parses a string representation of an equality into an `Equality`.
pub fn parse_conjecture(input: &str) -> (r: Result<Equality, String>)
    ensures
        r is Ok ==> spec_parse_conjecture(input@) == Ok::<SEquality, Seq<char>>(r->Ok_0@),
        r is Err ==> spec_parse_conjecture(input@) == Err::<SEquality, Seq<char>>(r->Err_0@),
{
    let tokens = tokenize(input)?;
    let mut parser = Parser { tokens, pos: 0 };
    let ghost t = parser.toks();
    let _n = parser.tokens.len();
    let lhs = parser.parse_additive()?;
    if !parser.is_at(3) {
        return Err(parser.expect_error(Token::Equal));
    }
    parser.pos = parser.pos + 1;
    let rhs = parser.parse_additive()?;
    if parser.pos < parser.tokens.len() {
        let mut m = owned("Trailing unparsed tokens from position ");
        m.append(nat_str(parser.pos as u64).as_str());
        return Err(m);
    }
    Ok(Equality::new(lhs, rhs))
}

} // verus!
