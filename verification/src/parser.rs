//! The recursive-descent parser: tokens to a `Program`.
//!
//! The grammar is stated once, as spec functions over the token models
//! (`sp_*`: each returns the parsed model and the position after it, or
//! `None` where the parser reports an error); every executable parsing
//! method is proved to compute exactly what its spec function says.
use vstd::prelude::*;
use crate::ast::{type_view, Type, Expr, Stmt, Block, Program, Pattern, LoopKind, MatchArm, EnumVariant, StringPart, BinOp, UnaryOp, SpecType, SpecExpr, SpecStmt, SpecBlock, SpecPattern, SpecLoopKind, SpecMatchArm, SpecEnumVariant, SpecStringPart, SpecProgram, types_view, exprs_view, stmts_view, named_view, lemma_types_view, lemma_types_view_push, lemma_exprs_view, lemma_exprs_view_push, lemma_named_view_push, lemma_stmts_view_push, strs_view};
use crate::token::{Sym, Token, SpecToken, tokens_view, copy_token};
use crate::text::{str_eq, push_char};

verus! {

// ── Token access ────────────────────────────────────────────────────────

pub open spec fn tk(ts: Seq<SpecToken>, p: int) -> SpecToken {
    if 0 <= p < ts.len() {
        ts[p]
    } else {
        SpecToken::Sym(Sym::Eof)
    }
}

pub open spec fn is_sym(ts: Seq<SpecToken>, p: int, k: Sym) -> bool {
    tk(ts, p) == SpecToken::Sym(k)
}

pub open spec fn is_ident(ts: Seq<SpecToken>, p: int) -> bool {
    tk(ts, p) is Identifier
}

pub open spec fn skip_nl(ts: Seq<SpecToken>, p: int) -> int
    decreases ts.len() - p,
{
    if 0 <= p < ts.len() && is_sym(ts, p, Sym::Newline) {
        skip_nl(ts, p + 1)
    } else {
        p
    }
}

/// Positions only move forward, and never past the end.
pub open spec fn fwd(ts: Seq<SpecToken>, p: int, q: int) -> bool {
    p < q && q <= ts.len()
}

pub open spec fn fwd_eq(ts: Seq<SpecToken>, p: int, q: int) -> bool {
    p <= q && q <= ts.len()
}

pub open spec fn sp_expect(ts: Seq<SpecToken>, p: int, k: Sym) -> Option<int> {
    if is_sym(ts, p, k) && 0 <= p < ts.len() {
        Some(p + 1)
    } else {
        None
    }
}

pub open spec fn sp_ident(ts: Seq<SpecToken>, p: int) -> Option<(Seq<char>, int)> {
    match tk(ts, p) {
        SpecToken::Identifier(n) => Some((n, p + 1)),
        _ => None,
    }
}

// ── Types ───────────────────────────────────────────────────────────────

pub open spec fn is_upper(c: char) -> bool {
    'A' <= c && c <= 'Z'
}

/// The type that a type name stands for.
pub open spec fn named_type(s: Seq<char>) -> SpecType {
    if s == "int"@ {
        SpecType::Int
    } else if s == "float"@ {
        SpecType::Float
    } else if s == "bool"@ {
        SpecType::Bool
    } else if s == "string"@ {
        SpecType::String
    } else if s == "ptr"@ {
        SpecType::Ptr
    } else if s == "void"@ {
        SpecType::Void
    } else if s.len() == 1 && is_upper(s[0]) {
        SpecType::Generic(s)
    } else {
        SpecType::Struct(s)
    }
}

pub open spec fn sp_type(ts: Seq<SpecToken>, p: int) -> Option<(SpecType, int)>
    decreases ts.len() - p, 1int,
{
    if is_sym(ts, p, Sym::Pipe2) && 0 <= p < ts.len() {
        sp_fn_ret(ts, p + 1, Seq::empty())
    } else if is_sym(ts, p, Sym::Pipe) && 0 <= p < ts.len() {
        if is_sym(ts, p + 1, Sym::Pipe) && p + 1 < ts.len() {
            sp_fn_ret(ts, p + 2, Seq::empty())
        } else {
            match sp_type(ts, p + 1) {
                Some((t, q)) => if fwd(ts, p, q) {
                    match sp_type_list(ts, q, seq![t]) {
                        Some((params, q2)) => match sp_expect(ts, q2, Sym::Pipe) {
                            Some(q3) => if fwd(ts, p, q3) {
                                sp_fn_ret(ts, q3, params)
                            } else {
                                None
                            },
                            None => None,
                        },
                        None => None,
                    }
                } else {
                    None
                },
                None => None,
            }
        }
    } else if is_sym(ts, p, Sym::LeftParen) && 0 <= p < ts.len() {
        if is_sym(ts, p + 1, Sym::RightParen) && p + 1 < ts.len() {
            Some((SpecType::Tuple(Seq::empty()), p + 2))
        } else {
            match sp_type(ts, p + 1) {
                Some((t, q)) => if fwd(ts, p, q) {
                    match sp_type_list(ts, q, seq![t]) {
                        Some((types, q2)) => match sp_expect(ts, q2, Sym::RightParen) {
                            Some(q3) => if types.len() == 1 {
                                Some((types[0], q3))
                            } else {
                                Some((SpecType::Tuple(types), q3))
                            },
                            None => None,
                        },
                        None => None,
                    }
                } else {
                    None
                },
                None => None,
            }
        }
    } else if 0 <= p < ts.len() {
        let base: Option<(SpecType, int)> = match tk(ts, p) {
            SpecToken::Identifier(s) => Some((named_type(s), p + 1)),
            SpecToken::Sym(Sym::KwInt8) => Some((SpecType::Int8, p + 1)),
            SpecToken::Sym(Sym::KwInt16) => Some((SpecType::Int16, p + 1)),
            SpecToken::Sym(Sym::KwInt64) => Some((SpecType::Int64, p + 1)),
            SpecToken::Sym(Sym::KwUint8) => Some((SpecType::Uint8, p + 1)),
            SpecToken::Sym(Sym::KwUint16) => Some((SpecType::Uint16, p + 1)),
            SpecToken::Sym(Sym::KwUint32) => Some((SpecType::Uint32, p + 1)),
            SpecToken::Sym(Sym::KwUint64) => Some((SpecType::Uint64, p + 1)),
            SpecToken::Sym(Sym::LeftBracket) => match sp_type(ts, p + 1) {
                Some((inner, q)) => match sp_expect(ts, q, Sym::RightBracket) {
                    Some(q2) => Some((SpecType::Array(Box::new(inner)), q2)),
                    None => None,
                },
                None => None,
            },
            _ => None,
        };
        match base {
            Some((t, q)) => if is_sym(ts, q, Sym::Question) && 0 <= q < ts.len() {
                Some((SpecType::Nullable(Box::new(t)), q + 1))
            } else {
                Some((t, q))
            },
            None => None,
        }
    } else {
        None
    }
}

/// `, type` repeated, after a first type.
pub open spec fn sp_type_list(ts: Seq<SpecToken>, p: int, acc: Seq<SpecType>) -> Option<(Seq<SpecType>, int)>
    decreases ts.len() - p, 0int,
{
    if is_sym(ts, p, Sym::Comma) && 0 <= p < ts.len() {
        match sp_type(ts, p + 1) {
            Some((t, q)) => if fwd(ts, p, q) {
                sp_type_list(ts, q, acc.push(t))
            } else {
                None
            },
            None => None,
        }
    } else {
        Some((acc, p))
    }
}

/// The optional `-> type` of a function type.
pub open spec fn sp_fn_ret(ts: Seq<SpecToken>, p: int, params: Seq<SpecType>) -> Option<(SpecType, int)>
    decreases ts.len() - p, 0int,
{
    if is_sym(ts, p, Sym::Arrow) && 0 <= p < ts.len() {
        match sp_type(ts, p + 1) {
            Some((r, q)) => Some((SpecType::Fn(params, Box::new(r)), q)),
            None => None,
        }
    } else {
        Some((SpecType::Fn(params, Box::new(SpecType::Void)), p))
    }
}

/// Where a parse error was found, and what was expected there.
pub struct ParseError {
    pub line: usize,
    pub col: usize,
    pub message: String,
}

pub open spec fn parsed_as<T: View>(r: Result<T, ParseError>, new_pos: int, s: Option<(T::V, int)>) -> bool {
    match s {
        Some((v, q)) => r matches Ok(x) && x@ == v && new_pos == q,
        None => r is Err,
    }
}

pub struct Parser {
    tokens: Vec<Token>,
    spans: Vec<(usize, usize)>,
    pos: usize,
    source_lines: Vec<String>,
    errors: Vec<String>,
}

impl Parser {
    /// The token models that this parser reads.
    pub closed spec fn ts(&self) -> Seq<SpecToken> {
        tokens_view(self.tokens@)
    }

    /// The (line, column) of each token.
    pub closed spec fn span_list(&self) -> Seq<(usize, usize)> {
        self.spans@
    }

    /// The position of the next token to read.
    pub closed spec fn position(&self) -> int {
        self.pos as int
    }

    /// The error messages collected so far.
    pub closed spec fn error_list(&self) -> Seq<String> {
        self.errors@
    }

    /// The lines of source text kept for error reports.
    pub closed spec fn lines(&self) -> Seq<String> {
        self.source_lines@
    }

    /// How many tokens are left to read.
    pub closed spec fn remaining(&self) -> int {
        self.tokens@.len() - self.pos
    }

    pub closed spec fn inv(&self) -> bool {
        self.pos <= self.tokens@.len()
    }

    pub closed spec fn same_input(&self, other: &Parser) -> bool {
        self.tokens@ == other.tokens@ && self.spans@ == other.spans@
    }

    /// A parser at the first of `tokens`; `spans` gives the (line, column)
    /// of each token for error reports.
    pub fn new(tokens: Vec<Token>, spans: Vec<(usize, usize)>) -> (r: Parser)
        ensures
            r.ts() == tokens_view(tokens@),
            r.span_list() == spans@,
            r.position() == 0,
            r.inv(),
            r.lines().len() == 0,
            r.error_list().len() == 0,
    {
        Parser { tokens, spans, pos: 0, source_lines: Vec::new(), errors: Vec::new() }
    }

    /// Keeps the lines of the source text for error reports.
    pub fn with_source(self, lines: Vec<String>) -> (r: Parser)
        ensures
            r.ts() == self.ts(),
            r.span_list() == self.span_list(),
            r.position() == self.position(),
            r.inv() == self.inv(),
            r.same_input(&self),
            r.lines() == lines@,
            r.error_list() == self.error_list(),
    {
        Parser { source_lines: lines, ..self }
    }

    /// Hands out the collected error messages and leaves none behind.
    pub fn take_errors(&mut self) -> (r: Vec<String>)
        ensures
            r@ == old(self).error_list(),
            final(self).error_list().len() == 0,
            final(self).ts() == old(self).ts(),
            final(self).same_input(old(self)),
            final(self).position() == old(self).position(),
            final(self).inv() == old(self).inv(),
            final(self).lines() == old(self).lines(),
    {
        let mut taken: Vec<String> = Vec::new();
        std::mem::swap(&mut taken, &mut self.errors);
        taken
    }

    /// The line of source text with the given number (counted from 1).
    pub fn source_line(&self, line: usize) -> (r: Option<&String>)
        ensures
            1 <= line <= self.lines().len() ==> r == Some(&self.lines()[line - 1]),
            !(1 <= line <= self.lines().len()) ==> r is None,
    {
        if line >= 1 && line <= self.source_lines.len() {
            Some(&self.source_lines[line - 1])
        } else {
            None
        }
    }

    fn error(&self, message: &str) -> (r: ParseError)
        ensures
            r.message@ == message@,
    {
        let (line, col) = if self.pos < self.spans.len() {
            self.spans[self.pos]
        } else {
            (0, 0)
        };
        ParseError { line, col, message: String::from_str(message) }
    }

    fn peek_sym(&self, k: Sym) -> (r: bool)
        ensures
            r == is_sym(self.ts(), self.pos as int, k),
    {
        self.peek_sym_at(0, k)
    }

    fn peek_sym_at(&self, off: usize, k: Sym) -> (r: bool)
        ensures
            r == is_sym(self.ts(), self.pos + off, k),
    {
        if self.pos < self.tokens.len() && off < self.tokens.len() - self.pos {
            match &self.tokens[self.pos + off] {
                Token::Sym(s) => *s == k,
                _ => false,
            }
        } else {
            k == Sym::Eof
        }
    }

    fn peek_ident_at(&self, off: usize) -> (r: bool)
        ensures
            r == is_ident(self.ts(), self.pos + off),
    {
        if self.pos < self.tokens.len() && off < self.tokens.len() - self.pos {
            match &self.tokens[self.pos + off] {
                Token::Identifier(_) => true,
                _ => false,
            }
        } else {
            false
        }
    }

    fn peek_token(&self) -> (r: Token)
        ensures
            r@ == tk(self.ts(), self.pos as int),
    {
        if self.pos < self.tokens.len() {
            copy_token(&self.tokens[self.pos])
        } else {
            Token::Sym(Sym::Eof)
        }
    }

    fn advance(&mut self)
        requires
            old(self).inv(),
        ensures
            final(self).inv(),
            final(self).same_input(old(self)),
            final(self).pos == if old(self).pos < old(self).tokens@.len() {
                old(self).pos + 1
            } else {
                old(self).pos as int
            },
    {
        if self.pos < self.tokens.len() {
            self.pos = self.pos + 1;
        }
    }

    fn skip_newlines(&mut self)
        requires
            old(self).inv(),
        ensures
            final(self).inv(),
            final(self).same_input(old(self)),
            final(self).pos == skip_nl(old(self).ts(), old(self).pos as int),
            final(self).pos >= old(self).pos,
    {
        while self.peek_sym(Sym::Newline)
            invariant
                self.pos >= old(self).pos,
                self.inv(),
                self.same_input(old(self)),
                skip_nl(self.ts(), self.pos as int) == skip_nl(old(self).ts(), old(self).pos as int),
            decreases self.tokens@.len() - self.pos,
        {
            self.advance();
        }
    }

    fn expect(&mut self, k: Sym) -> (r: Result<(), ParseError>)
        requires
            old(self).inv(),
        ensures
            final(self).inv(),
            final(self).same_input(old(self)),
            match sp_expect(old(self).ts(), old(self).pos as int, k) {
                Some(q) => r is Ok && final(self).pos == q,
                None => r is Err,
            },
    {
        if self.peek_sym(k) && self.pos < self.tokens.len() {
            self.advance();
            Ok(())
        } else {
            Err(self.error("unexpected token"))
        }
    }

    fn consume_identifier(&mut self) -> (r: Result<String, ParseError>)
        requires
            old(self).inv(),
        ensures
            final(self).inv(),
            final(self).same_input(old(self)),
            match sp_ident(old(self).ts(), old(self).pos as int) {
                Some((n, q)) => r matches Ok(s) && s@ == n && final(self).pos == q,
                None => r is Err,
            },
    {
        if self.pos < self.tokens.len() {
            match &self.tokens[self.pos] {
                Token::Identifier(n) => {
                    let s = n.clone();
                    self.pos = self.pos + 1;
                    Ok(s)
                },
                _ => Err(self.error("expected identifier")),
            }
        } else {
            Err(self.error("expected identifier"))
        }
    }

    // ── Types ───────────────────────────────────────────────────────────

    fn parse_type(&mut self) -> (r: Result<Type, ParseError>)
        requires
            old(self).inv(),
        ensures
            final(self).inv(),
            final(self).same_input(old(self)),
            parsed_as(r, final(self).pos as int, sp_type(old(self).ts(), old(self).pos as int)),
            r is Ok ==> final(self).pos > old(self).pos,
        decreases old(self).remaining(), 1int,
    {
        let ghost ts = self.ts();
        let ghost p = self.pos as int;
        if self.peek_sym(Sym::Pipe2) && self.pos < self.tokens.len() {
            self.advance();
            return self.parse_fn_ret(Vec::new());
        }
        if self.peek_sym(Sym::Pipe) && self.pos < self.tokens.len() {
            self.advance();
            if self.peek_sym(Sym::Pipe) && self.pos < self.tokens.len() {
                self.advance();
                return self.parse_fn_ret(Vec::new());
            }
            let t = self.parse_type()?;
            let mut params: Vec<Type> = Vec::new();
            params.push(t);
            proof {
                assert(types_view(params@) =~= seq![t@]) by {
                    lemma_types_view_push(Seq::empty(), t);
                    assert(Seq::<Type>::empty().push(t) =~= params@);
                }
            }
            let params = self.parse_type_list(params)?;
            self.expect(Sym::Pipe)?;
            return self.parse_fn_ret(params);
        }
        if self.peek_sym(Sym::LeftParen) && self.pos < self.tokens.len() {
            self.advance();
            if self.peek_sym(Sym::RightParen) && self.pos < self.tokens.len() {
                self.advance();
                let empty: Vec<Type> = Vec::new();
                proof {
                    assert(types_view(empty@) =~= Seq::<SpecType>::empty());
                }
                return Ok(Type::Tuple(empty));
            }
            let t = self.parse_type()?;
            let mut types: Vec<Type> = Vec::new();
            types.push(t);
            proof {
                assert(types_view(types@) =~= seq![t@]) by {
                    lemma_types_view_push(Seq::empty(), t);
                    assert(Seq::<Type>::empty().push(t) =~= types@);
                }
            }
            let mut types = self.parse_type_list(types)?;
            self.expect(Sym::RightParen)?;
            proof {
                lemma_types_view(types@);
            }
            if types.len() == 1 {
                let first = types.remove(0);
                return Ok(first);
            }
            return Ok(Type::Tuple(types));
        }
        if self.pos >= self.tokens.len() {
            return Err(self.error("expected type"));
        }
        let tok = self.peek_token();
        self.advance();
        let base = match tok {
            Token::Identifier(s) => named_type_c(s),
            Token::Sym(Sym::KwInt8) => Type::Int8,
            Token::Sym(Sym::KwInt16) => Type::Int16,
            Token::Sym(Sym::KwInt64) => Type::Int64,
            Token::Sym(Sym::KwUint8) => Type::Uint8,
            Token::Sym(Sym::KwUint16) => Type::Uint16,
            Token::Sym(Sym::KwUint32) => Type::Uint32,
            Token::Sym(Sym::KwUint64) => Type::Uint64,
            Token::Sym(Sym::LeftBracket) => {
                let inner = self.parse_type()?;
                self.expect(Sym::RightBracket)?;
                Type::Array(Box::new(inner))
            },
            _ => {
                return Err(self.error("expected type"));
            },
        };
        if self.peek_sym(Sym::Question) && self.pos < self.tokens.len() {
            self.advance();
            return Ok(Type::Nullable(Box::new(base)));
        }
        Ok(base)
    }

    #[verifier::loop_isolation(false)]
    fn parse_type_list(&mut self, init: Vec<Type>) -> (r: Result<Vec<Type>, ParseError>)
        requires
            old(self).inv(),
        ensures
            final(self).inv(),
            final(self).same_input(old(self)),
            r is Ok ==> final(self).pos >= old(self).pos,
            match sp_type_list(old(self).ts(), old(self).pos as int, types_view(init@)) {
                Some((v, q)) => r matches Ok(x) && types_view(x@) == v && final(self).pos == q,
                None => r is Err,
            },
        decreases old(self).remaining(), 0int,
    {
        let ghost acc0 = init@;
        let mut acc = init;
        while self.peek_sym(Sym::Comma) && self.pos < self.tokens.len()
            invariant
                self.inv(),
                self.same_input(old(self)),
                self.pos >= old(self).pos,
                sp_type_list(old(self).ts(), old(self).pos as int, types_view(acc0)) == sp_type_list(
                    self.ts(),
                    self.pos as int,
                    types_view(acc@),
                ),
            decreases self.tokens@.len() - self.pos,
        {
            let ghost p = self.pos as int;
            let ghost av = types_view(acc@);
            self.advance();
            match self.parse_type() {
                Ok(t) => {
                    proof {
                        lemma_types_view_push(acc@, t);
                    }
                    acc.push(t);
                },
                Err(e) => {
                    assert(sp_type_list(self.ts(), p, av) is None);
                    assert(sp_type_list(old(self).ts(), old(self).pos as int, types_view(acc0)) is None);
                    return Err(e);
                },
            }
        }
        Ok(acc)
    }

    fn parse_fn_ret(&mut self, params: Vec<Type>) -> (r: Result<Type, ParseError>)
        requires
            old(self).inv(),
        ensures
            final(self).inv(),
            final(self).same_input(old(self)),
            r is Ok ==> final(self).pos >= old(self).pos,
            parsed_as(r, final(self).pos as int, sp_fn_ret(old(self).ts(), old(self).pos as int, types_view(params@))),
        decreases old(self).remaining(), 0int,
    {
        let ghost ts = old(self).ts();
        let ghost p = old(self).pos as int;
        let ghost pv = types_view(params@);
        if self.peek_sym(Sym::Arrow) && self.pos < self.tokens.len() {
            self.advance();
            match self.parse_type() {
                Ok(ret) => {
                    let r = Type::Fn(params, Box::new(ret));
                    assert(r@ == SpecType::Fn(pv, Box::new(ret@)));
                    Ok(r)
                },
                Err(e) => Err(e),
            }
        } else {
            let r = Type::Fn(params, Box::new(Type::Void));
            assert(type_view(Type::Void) == SpecType::Void);
            assert(r@ == SpecType::Fn(pv, Box::new(SpecType::Void)));
            assert(sp_fn_ret(ts, p, pv) == Some((SpecType::Fn(pv, Box::new(SpecType::Void)), p)));
            Ok(r)
        }
    }
}

fn named_type_c(s: String) -> (r: Type)
    ensures
        r@ == named_type(s@),
{
    if str_eq(s.as_str(), "int") {
        Type::Int
    } else if str_eq(s.as_str(), "float") {
        Type::Float
    } else if str_eq(s.as_str(), "bool") {
        Type::Bool
    } else if str_eq(s.as_str(), "string") {
        Type::String
    } else if str_eq(s.as_str(), "ptr") {
        Type::Ptr
    } else if str_eq(s.as_str(), "void") {
        Type::Void
    } else {
        let cs = crate::text::chars_of(s.as_str());
        if cs.len() == 1 && 'A' <= cs[0] && cs[0] <= 'Z' {
            Type::Generic(s)
        } else {
            Type::Struct(s)
        }
    }
}


/// A token after which no expression goes on.
pub open spec fn closes_expr(t: SpecToken) -> bool {
    ||| t == SpecToken::Sym(Sym::Newline)
    ||| t == SpecToken::Sym(Sym::Eof)
    ||| t == SpecToken::Sym(Sym::RightParen)
    ||| t == SpecToken::Sym(Sym::RightBracket)
    ||| t == SpecToken::Sym(Sym::RightBrace)
    ||| t == SpecToken::Sym(Sym::Comma)
}

/// The value of an integer literal at `p` that is a whole expression: the
/// token after it ends the expression.
pub open spec fn lone_int(ts: Seq<SpecToken>, p: int) -> Option<i64> {
    match tk(ts, p) {
        SpecToken::Integer(n) => if closes_expr(tk(ts, p + 1)) { Some(n) } else { None },
        _ => None,
    }
}

/// Whether only line breaks are left from `p` on, up to the end marker.
pub open spec fn blank_rest(ts: Seq<SpecToken>, p: int) -> bool {
    is_sym(ts, skip_nl(ts, p), Sym::Eof)
}

/// What every parsing method promises about the parser's state: the input
/// is untouched, the position stays within it, and a successful parse has
/// consumed at least one token.
pub open spec fn progressed(before: &Parser, after: &Parser, ok: bool) -> bool {
    &&& after.inv()
    &&& after.same_input(before)
    &&& ok ==> after.position() > before.position()
}

pub open spec fn kept(before: &Parser, after: &Parser, ok: bool) -> bool {
    &&& after.inv()
    &&& after.same_input(before)
    &&& ok ==> after.position() >= before.position()
}

impl Parser {
    /// Consumes the next token if it is `k` (never the end marker).
    fn eat(&mut self, k: Sym) -> (r: bool)
        requires
            old(self).inv(),
        ensures
            final(self).inv(),
            final(self).same_input(old(self)),
            r == (is_sym(old(self).ts(), old(self).pos as int, k) && old(self).pos < old(self).tokens@.len()),
            r ==> final(self).pos == old(self).pos + 1,
            !r ==> final(self).pos == old(self).pos,
    {
        if self.peek_sym(k) && self.pos < self.tokens.len() {
            self.advance();
            true
        } else {
            false
        }
    }

    fn at_end(&self) -> (r: bool)
        ensures
            r == is_sym(self.ts(), self.pos as int, Sym::Eof),
    {
        self.peek_sym(Sym::Eof)
    }

    fn peek_string_literal(&self) -> (r: Option<String>)
        ensures
            r matches Some(s) ==> tk(self.ts(), self.pos as int) == SpecToken::StringLiteral(s@),
            r is None ==> !(tk(self.ts(), self.pos as int) is StringLiteral),
    {
        if self.pos < self.tokens.len() {
            match &self.tokens[self.pos] {
                Token::StringLiteral(s) => Some(s.clone()),
                _ => None,
            }
        } else {
            None
        }
    }

    fn peek_integer_at(&self, off: usize) -> (r: Option<i64>)
        ensures
            r matches Some(n) ==> tk(self.ts(), self.pos + off) == SpecToken::Integer(n),
            r is None ==> !(tk(self.ts(), self.pos + off) is Integer),
    {
        if self.pos < self.tokens.len() && off < self.tokens.len() - self.pos {
            match &self.tokens[self.pos + off] {
                Token::Integer(n) => Some(*n),
                _ => None,
            }
        } else {
            None
        }
    }

    /// The keyword or punctuation at the current position, if any.
    fn peek_kind(&self) -> (r: Option<Sym>)
        ensures
            r matches Some(k) ==> is_sym(self.ts(), self.pos as int, k) && self.pos < self.tokens@.len(),
            r is None ==> !(tk(self.ts(), self.pos as int) is Sym) || self.pos >= self.tokens@.len(),
    {
        if self.pos < self.tokens.len() {
            match &self.tokens[self.pos] {
                Token::Sym(k) => Some(*k),
                _ => None,
            }
        } else {
            None
        }
    }

    /// A string-literal token, consumed.
    fn expect_string(&mut self, message: &str) -> (r: Result<String, ParseError>)
        requires
            old(self).inv(),
        ensures
            progressed(old(self), final(self), r is Ok),
            r matches Ok(s) ==> tk(old(self).ts(), old(self).pos as int) == SpecToken::StringLiteral(s@),
            r is Err ==> !(tk(old(self).ts(), old(self).pos as int) is StringLiteral),
    {
        match self.peek_string_literal() {
            Some(s) => {
                self.advance();
                Ok(s)
            },
            None => Err(self.error(message)),
        }
    }

    fn peek_next_is_assign(&self) -> (r: bool)
        ensures
            r == (is_sym(self.ts(), self.pos + 1, Sym::Assign) && !is_sym(self.ts(), self.pos as int, Sym::Newline)),
    {
        self.peek_sym_at(1, Sym::Assign) && !self.peek_sym(Sym::Newline)
    }

    fn peek_next_is_compound_assign(&self) -> (r: bool)
        ensures
            r == (is_sym(self.ts(), self.pos + 1, Sym::PlusAssign) || is_sym(self.ts(), self.pos + 1, Sym::MinusAssign)
                || is_sym(self.ts(), self.pos + 1, Sym::StarAssign) || is_sym(self.ts(), self.pos + 1, Sym::SlashAssign)),
    {
        self.peek_sym_at(1, Sym::PlusAssign) || self.peek_sym_at(1, Sym::MinusAssign)
            || self.peek_sym_at(1, Sym::StarAssign) || self.peek_sym_at(1, Sym::SlashAssign)
    }

    fn peek_is_field_assign(&self) -> (r: bool)
        ensures
            r == (is_ident(self.ts(), self.pos as int) && is_sym(self.ts(), self.pos + 1, Sym::Dot)
                && is_ident(self.ts(), self.pos + 2) && is_sym(self.ts(), self.pos + 3, Sym::Assign)),
    {
        self.peek_ident_at(0) && self.peek_sym_at(1, Sym::Dot) && self.peek_ident_at(2) && self.peek_sym_at(3, Sym::Assign)
    }

    fn peek_is_expr_start(&self) -> (r: bool)
        ensures
            r == !(is_sym(self.ts(), self.pos as int, Sym::Newline) || is_sym(self.ts(), self.pos as int, Sym::RightBrace)
                || is_sym(self.ts(), self.pos as int, Sym::Eof)),
    {
        !(self.peek_sym(Sym::Newline) || self.peek_sym(Sym::RightBrace) || self.peek_sym(Sym::Eof))
    }

    /// Whether the tokens ahead begin a statement rather than an expression.
    fn peek_is_stmt_start(&self) -> (r: bool)
        ensures
            r == (match tk(self.ts(), self.pos as int) {
                SpecToken::Sym(k) => stmt_keyword(k),
                _ => false,
            } || (is_ident(self.ts(), self.pos as int) && is_sym(self.ts(), self.pos + 1, Sym::Assign))
              || (is_ident(self.ts(), self.pos as int) && (is_sym(self.ts(), self.pos + 1, Sym::PlusAssign)
                  || is_sym(self.ts(), self.pos + 1, Sym::MinusAssign) || is_sym(self.ts(), self.pos + 1, Sym::StarAssign)
                  || is_sym(self.ts(), self.pos + 1, Sym::SlashAssign)))
              || (is_ident(self.ts(), self.pos as int) && is_sym(self.ts(), self.pos + 1, Sym::Dot)
                  && is_ident(self.ts(), self.pos + 2) && is_sym(self.ts(), self.pos + 3, Sym::Assign))),
    {
        let kw = match self.peek_kind() {
            Some(k) => stmt_keyword_c(k),
            None => false,
        };
        let id = self.peek_ident_at(0);
        kw || (id && self.peek_next_is_assign()) || (id && self.peek_next_is_compound_assign())
            || self.peek_is_field_assign()
    }
}

/// The keywords that begin a statement.
pub open spec fn stmt_keyword(k: Sym) -> bool {
    match k {
        Sym::KwSet | Sym::KwSensitive | Sym::KwConst | Sym::KwType | Sym::KwTask | Sym::KwInline
        | Sym::KwAsync | Sym::KwCheck | Sym::KwLoop | Sym::KwOverride | Sym::KwPurge | Sym::KwPrint
        | Sym::KwPrintFmt | Sym::KwReturn | Sym::KwAsm | Sym::KwImport | Sym::KwBreak
        | Sym::KwContinue | Sym::KwExtern | Sym::KwStruct | Sym::KwEnum | Sym::KwFree
        | Sym::KwConstantTime | Sym::KwMatch | Sym::KwSpawn | Sym::KwDefer | Sym::KwAssert
        | Sym::KwStaticAssert | Sym::KwTest | Sym::KwNamespace | Sym::KwUse => true,
        _ => false,
    }
}

fn stmt_keyword_c(k: Sym) -> (r: bool)
    ensures
        r == stmt_keyword(k),
{
    match k {
        Sym::KwSet | Sym::KwSensitive | Sym::KwConst | Sym::KwType | Sym::KwTask | Sym::KwInline
        | Sym::KwAsync | Sym::KwCheck | Sym::KwLoop | Sym::KwOverride | Sym::KwPurge | Sym::KwPrint
        | Sym::KwPrintFmt | Sym::KwReturn | Sym::KwAsm | Sym::KwImport | Sym::KwBreak
        | Sym::KwContinue | Sym::KwExtern | Sym::KwStruct | Sym::KwEnum | Sym::KwFree
        | Sym::KwConstantTime | Sym::KwMatch | Sym::KwSpawn | Sym::KwDefer | Sym::KwAssert
        | Sym::KwStaticAssert | Sym::KwTest | Sym::KwNamespace | Sym::KwUse => true,
        _ => false,
    }
}


/// The binary operator that `k` stands for at precedence level `lvl`
/// (9 binds loosest: `or`; 1 binds tightest: `*`, `/`, `%`).
pub open spec fn bin_op_of(lvl: u8, k: Sym) -> Option<BinOp> {
    match (lvl, k) {
        (9, Sym::Or) => Some(BinOp::Or),
        (8, Sym::And) => Some(BinOp::And),
        (7, Sym::Pipe) => Some(BinOp::BitOr),
        (6, Sym::Caret) => Some(BinOp::BitXor),
        (5, Sym::Ampersand) => Some(BinOp::BitAnd),
        (4, Sym::EqualEqual) => Some(BinOp::Eq),
        (4, Sym::NotEqual) => Some(BinOp::Neq),
        (4, Sym::Less) => Some(BinOp::Lt),
        (4, Sym::Greater) => Some(BinOp::Gt),
        (4, Sym::LessEqual) => Some(BinOp::Le),
        (4, Sym::GreaterEqual) => Some(BinOp::Ge),
        (3, Sym::LessLess) => Some(BinOp::Shl),
        (3, Sym::GreaterGreater) => Some(BinOp::Shr),
        (2, Sym::Plus) => Some(BinOp::Add),
        (2, Sym::Minus) => Some(BinOp::Sub),
        (1, Sym::Star) => Some(BinOp::Mul),
        (1, Sym::Slash) => Some(BinOp::Div),
        (1, Sym::Percent) => Some(BinOp::Mod),
        _ => None,
    }
}

fn bin_op_of_c(lvl: u8, k: Sym) -> (r: Option<BinOp>)
    ensures
        r == bin_op_of(lvl, k),
{
    match (lvl, k) {
        (9, Sym::Or) => Some(BinOp::Or),
        (8, Sym::And) => Some(BinOp::And),
        (7, Sym::Pipe) => Some(BinOp::BitOr),
        (6, Sym::Caret) => Some(BinOp::BitXor),
        (5, Sym::Ampersand) => Some(BinOp::BitAnd),
        (4, Sym::EqualEqual) => Some(BinOp::Eq),
        (4, Sym::NotEqual) => Some(BinOp::Neq),
        (4, Sym::Less) => Some(BinOp::Lt),
        (4, Sym::Greater) => Some(BinOp::Gt),
        (4, Sym::LessEqual) => Some(BinOp::Le),
        (4, Sym::GreaterEqual) => Some(BinOp::Ge),
        (3, Sym::LessLess) => Some(BinOp::Shl),
        (3, Sym::GreaterGreater) => Some(BinOp::Shr),
        (2, Sym::Plus) => Some(BinOp::Add),
        (2, Sym::Minus) => Some(BinOp::Sub),
        (1, Sym::Star) => Some(BinOp::Mul),
        (1, Sym::Slash) => Some(BinOp::Div),
        (1, Sym::Percent) => Some(BinOp::Mod),
        _ => None,
    }
}

/// Whether `s` holds both an opening and a closing brace.
pub open spec fn has_braces(s: Seq<char>) -> bool {
    s.contains('{') && s.contains('}')
}

fn contains_char(s: &str, c: char) -> (r: bool)
    ensures
        r == s@.contains(c),
{
    let cs = crate::text::chars_of(s);
    let mut i: usize = 0;
    while i < cs.len()
        invariant
            i <= cs.len(),
            cs@ == s@,
            forall|j: int| 0 <= j < i ==> cs@[j] != c,
        decreases cs.len() - i,
    {
        if cs[i] == c {
            return true;
        }
        i = i + 1;
    }
    false
}

impl Parser {
    // ── Expressions ─────────────────────────────────────────────────────

    pub fn parse_expr(&mut self) -> (r: Result<Expr, ParseError>)
        requires
            old(self).inv(),
        ensures
            progressed(old(self), final(self), r is Ok),
            lone_int(old(self).ts(), old(self).position()) matches Some(n)
                ==> (r matches Ok(e) && e@ == SpecExpr::Integer(n) && final(self).position() == old(self).position() + 1),
        decreases old(self).remaining(), 20int,
    {
        self.parse_bin(9)
    }

    fn peek_bin_op(&self, lvl: u8) -> (r: Option<BinOp>)
        ensures
            r == (match tk(self.ts(), self.pos as int) {
                SpecToken::Sym(k) => bin_op_of(lvl, k),
                _ => None,
            }),
            r is Some ==> self.pos < self.tokens@.len(),
    {
        match self.peek_kind() {
            Some(k) => bin_op_of_c(lvl, k),
            None => None,
        }
    }

    /// The operators of level `lvl` and tighter, left-associative.
    #[verifier::loop_isolation(false)]
    fn parse_bin(&mut self, lvl: u8) -> (r: Result<Expr, ParseError>)
        requires
            old(self).inv(),
            lvl <= 9,
        ensures
            progressed(old(self), final(self), r is Ok),
            lone_int(old(self).ts(), old(self).pos as int) matches Some(n) ==> (r matches Ok(e) && e@ == SpecExpr::Integer(n) && final(self).pos == old(self).pos + 1),
        decreases old(self).remaining(), lvl as int + 3,
    {
        if lvl == 0 {
            return self.parse_unary();
        }
        let mut l = self.parse_bin(lvl - 1)?;
        loop
            invariant
                self.inv(),
                self.same_input(old(self)),
                self.pos > old(self).pos,
                lone_int(old(self).ts(), old(self).pos as int) matches Some(n) ==> (l@ == SpecExpr::Integer(n) && self.pos == old(self).pos + 1),
            decreases self.tokens@.len() - self.pos,
        {
            let op = match self.peek_bin_op(lvl) {
                Some(op) => op,
                None => break,
            };
            self.advance();
            let r = self.parse_bin(lvl - 1)?;
            l = Expr::BinaryOp { left: Box::new(l), op, right: Box::new(r) };
        }
        Ok(l)
    }

    fn parse_unary(&mut self) -> (r: Result<Expr, ParseError>)
        requires
            old(self).inv(),
        ensures
            progressed(old(self), final(self), r is Ok),
            lone_int(old(self).ts(), old(self).pos as int) matches Some(n) ==> (r matches Ok(e) && e@ == SpecExpr::Integer(n) && final(self).pos == old(self).pos + 1),
        decreases old(self).remaining(), 2int,
    {
        if self.eat(Sym::Minus) {
            let e = self.parse_unary()?;
            return Ok(Expr::UnaryOp { op: UnaryOp::Neg, operand: Box::new(e) });
        }
        if self.eat(Sym::Not) {
            let e = self.parse_unary()?;
            return Ok(Expr::UnaryOp { op: UnaryOp::Not, operand: Box::new(e) });
        }
        if self.eat(Sym::Tilde) {
            let e = self.parse_unary()?;
            return Ok(Expr::UnaryOp { op: UnaryOp::BitNot, operand: Box::new(e) });
        }
        if self.eat(Sym::Ampersand) {
            let e = self.parse_unary()?;
            return Ok(Expr::AddressOf(Box::new(e)));
        }
        if self.eat(Sym::Star) {
            let e = self.parse_unary()?;
            return Ok(Expr::Deref(Box::new(e)));
        }
        if self.eat(Sym::KwComptime) {
            let e = self.parse_primary()?;
            return Ok(Expr::Comptime(Box::new(e)));
        }
        if self.eat(Sym::KwAwait) {
            let e = self.parse_primary()?;
            return Ok(Expr::Await(Box::new(e)));
        }
        self.parse_postfix()
    }

    /// `name: value` or `value`, one argument of a call.
    fn parse_argument(&mut self, args: &mut Vec<Expr>, named: &mut Vec<(String, Expr)>) -> (r: Result<(), ParseError>)
        requires
            old(self).inv(),
        ensures
            progressed(old(self), final(self), r is Ok),
        decreases old(self).remaining(), 21int,
    {
        if self.peek_ident_at(0) && self.peek_sym_at(1, Sym::Colon) {
            let aname = self.consume_identifier()?;
            self.advance();
            let aval = self.parse_expr()?;
            named.push((aname, aval));
        } else {
            let e = self.parse_expr()?;
            args.push(e);
        }
        Ok(())
    }

    #[verifier::loop_isolation(false)]
    fn parse_postfix(&mut self) -> (r: Result<Expr, ParseError>)
        requires
            old(self).inv(),
        ensures
            progressed(old(self), final(self), r is Ok),
            lone_int(old(self).ts(), old(self).pos as int) matches Some(n) ==> (r matches Ok(e) && e@ == SpecExpr::Integer(n) && final(self).pos == old(self).pos + 1),
        decreases old(self).remaining(), 1int,
    {
        let mut expr = self.parse_primary()?;
        loop
            invariant
                self.inv(),
                self.same_input(old(self)),
                self.pos > old(self).pos,
                lone_int(old(self).ts(), old(self).pos as int) matches Some(n) ==> (expr@ == SpecExpr::Integer(n) && self.pos == old(self).pos + 1),
            decreases self.tokens@.len() - self.pos,
        {
            if self.eat(Sym::LeftParen) {
                let ghost start = self.pos;
                let mut args: Vec<Expr> = Vec::new();
                let mut named: Vec<(String, Expr)> = Vec::new();
                if !self.peek_sym(Sym::RightParen) {
                    self.parse_argument(&mut args, &mut named)?;
                    while self.eat(Sym::Comma)
                        invariant
                            self.pos >= start,
                            self.inv(),
                            self.same_input(old(self)),
                            self.pos > old(self).pos,
                        decreases self.tokens@.len() - self.pos,
                    {
                        self.parse_argument(&mut args, &mut named)?;
                    }
                }
                self.expect(Sym::RightParen)?;
                expr = Expr::Call { func: Box::new(expr), args, named };
            } else if self.eat(Sym::LeftBracket) {
                let index = self.parse_expr()?;
                self.expect(Sym::RightBracket)?;
                expr = Expr::Index { array: Box::new(expr), index: Box::new(index) };
            } else if self.eat(Sym::KwAs) {
                let to = self.parse_type()?;
                expr = Expr::Cast { expr: Box::new(expr), to };
            } else if self.eat(Sym::Dot) {
                if self.eat(Sym::KwAwait) {
                    expr = Expr::Await(Box::new(expr));
                } else {
                    match self.peek_integer_at(0) {
                        Some(n) => {
                            self.advance();
                            expr = Expr::TupleIndex { tuple: Box::new(expr), index: #[verifier::truncate] (n as usize) };
                        },
                        None => {
                            let field = self.consume_identifier()?;
                            expr = Expr::FieldAccess { object: Box::new(expr), field };
                        },
                    }
                }
            } else if self.eat(Sym::Question) {
                expr = Expr::PropagateErr(Box::new(expr));
            } else {
                break;
            }
        }
        let inclusive = self.peek_sym(Sym::DotDotEq);
        if self.eat(Sym::DotDot) || self.eat(Sym::DotDotEq) {
            let end = self.parse_primary()?;
            return Ok(Expr::Range { start: Box::new(expr), end: Box::new(end), inclusive });
        }
        Ok(expr)
    }

    /// One closure parameter: a name and an optional `: type`.
    fn parse_closure_param(&mut self) -> (r: Result<(String, Option<Type>), ParseError>)
        requires
            old(self).inv(),
        ensures
            progressed(old(self), final(self), r is Ok),
    {
        let name = self.consume_identifier()?;
        if self.eat(Sym::Colon) {
            let t = self.parse_type()?;
            Ok((name, Some(t)))
        } else {
            Ok((name, None))
        }
    }

    #[verifier::loop_isolation(false)]
    fn parse_primary(&mut self) -> (r: Result<Expr, ParseError>)
        requires
            old(self).inv(),
        ensures
            progressed(old(self), final(self), r is Ok),
            lone_int(old(self).ts(), old(self).pos as int) matches Some(n) ==> (r matches Ok(e) && e@ == SpecExpr::Integer(n) && final(self).pos == old(self).pos + 1),
        decreases old(self).remaining(), 0int,
    {
        // Closure: |x, y| expr  or  || expr
        if self.eat(Sym::Pipe2) {
            let body = self.parse_expr()?;
            return Ok(Expr::Closure { params: Vec::new(), body: Box::new(body) });
        }
        if self.eat(Sym::Pipe) {
            let mut params: Vec<(String, Option<Type>)> = Vec::new();
            if !self.peek_sym(Sym::Pipe) {
                let first = self.parse_closure_param()?;
                params.push(first);
                while self.eat(Sym::Comma)
                    invariant
                        self.inv(),
                        self.same_input(old(self)),
                        self.pos > old(self).pos,
                    decreases self.tokens@.len() - self.pos,
                {
                    let next = self.parse_closure_param()?;
                    params.push(next);
                }
            }
            self.expect(Sym::Pipe)?;
            let body = self.parse_expr()?;
            return Ok(Expr::Closure { params, body: Box::new(body) });
        }
        if self.eat(Sym::KwAlloc) {
            self.expect(Sym::LeftParen)?;
            let count = self.parse_expr()?;
            self.expect(Sym::Comma)?;
            let size = self.parse_expr()?;
            self.expect(Sym::RightParen)?;
            return Ok(Expr::Alloc { count: Box::new(count), size: Box::new(size) });
        }
        if self.eat(Sym::KwOk) {
            self.expect(Sym::LeftParen)?;
            let inner = self.parse_expr()?;
            self.expect(Sym::RightParen)?;
            return Ok(Expr::OkExpr(Box::new(inner)));
        }
        if self.eat(Sym::KwErr) {
            self.expect(Sym::LeftParen)?;
            let inner = self.parse_expr()?;
            self.expect(Sym::RightParen)?;
            return Ok(Expr::ErrExpr(Box::new(inner)));
        }
        if self.pos >= self.tokens.len() {
            return Err(self.error("unexpected end of input"));
        }
        let tok = self.peek_token();
        self.advance();
        match tok {
            Token::Integer(n) => Ok(Expr::Integer(n)),
            Token::Float(f) => Ok(Expr::Float(f)),
            Token::Sym(Sym::KwTrue) => Ok(Expr::Boolean(true)),
            Token::Sym(Sym::KwFalse) => Ok(Expr::Boolean(false)),
            Token::Sym(Sym::KwNull) => Ok(Expr::Null),
            Token::StringLiteral(text) => {
                if contains_char(text.as_str(), '{') && contains_char(text.as_str(), '}') {
                    Ok(parse_interpolated_string(text.as_str()))
                } else {
                    Ok(Expr::StringLiteral(text))
                }
            },
            Token::Identifier(name) => {
                if self.eat(Sym::LeftBrace) {
                    let mut fields: Vec<(String, Expr)> = Vec::new();
                    self.skip_newlines();
                    while !self.peek_sym(Sym::RightBrace) && !self.at_end()
                        invariant
                            self.inv(),
                            self.same_input(old(self)),
                            self.pos > old(self).pos,
                        decreases self.tokens@.len() - self.pos,
                    {
                        let fname = self.consume_identifier()?;
                        self.expect(Sym::Colon)?;
                        let fval = self.parse_expr()?;
                        fields.push((fname, fval));
                        self.eat(Sym::Comma);
                        self.skip_newlines();
                    }
                    self.expect(Sym::RightBrace)?;
                    Ok(Expr::StructLiteral { name, fields })
                } else {
                    Ok(Expr::Identifier(name))
                }
            },
            Token::Sym(Sym::LeftParen) => {
                let first = self.parse_expr()?;
                if self.peek_sym(Sym::Comma) {
                    let mut elems: Vec<Expr> = Vec::new();
                    elems.push(first);
                    while self.eat(Sym::Comma)
                        invariant
                            self.inv(),
                            self.same_input(old(self)),
                            self.pos > old(self).pos,
                        decreases self.tokens@.len() - self.pos,
                    {
                        if self.peek_sym(Sym::RightParen) {
                            break;
                        }
                        let e = self.parse_expr()?;
                        elems.push(e);
                    }
                    self.expect(Sym::RightParen)?;
                    Ok(Expr::Tuple(elems))
                } else {
                    self.expect(Sym::RightParen)?;
                    Ok(first)
                }
            },
            Token::Sym(Sym::LeftBracket) => {
                let mut elems: Vec<Expr> = Vec::new();
                if !self.peek_sym(Sym::RightBracket) {
                    let first = self.parse_expr()?;
                    elems.push(first);
                    while self.eat(Sym::Comma)
                        invariant
                            self.inv(),
                            self.same_input(old(self)),
                            self.pos > old(self).pos,
                        decreases self.tokens@.len() - self.pos,
                    {
                        let e = self.parse_expr()?;
                        elems.push(e);
                    }
                }
                self.expect(Sym::RightBracket)?;
                Ok(Expr::Array(elems))
            },
            Token::Sym(Sym::KwCopy) => {
                let inner = self.parse_primary()?;
                Ok(Expr::Copy(Box::new(inner)))
            },
            _ => Err(self.error("unexpected token")),
        }
    }
}

/// Where the hole that starts at `j` ends: the first `}` from `j` on, or
/// the end of the text.
pub open spec fn hole_end(cs: Seq<char>, j: int) -> int
    decreases cs.len() - j,
{
    if j >= cs.len() || cs[j] == '}' {
        j
    } else {
        hole_end(cs, j + 1)
    }
}

/// The literal text gathered so far, as a part (none while it is empty).
pub open spec fn text_part(cur: Seq<char>) -> Seq<SpecStringPart> {
    if cur.len() > 0 {
        seq![SpecStringPart::Literal(cur)]
    } else {
        Seq::empty()
    }
}

/// The parts of `cs` from position `i` on, with `cur` the literal text
/// gathered before `i`: `{name}` is a hole naming a variable (its name
/// trimmed), `{{` and `}}` stand for single braces.
pub open spec fn interp_from(cs: Seq<char>, i: int, cur: Seq<char>) -> Seq<SpecStringPart>
    decreases cs.len() - i,
{
    if i >= cs.len() || i < 0 {
        text_part(cur)
    } else if cs[i] == '{' && i + 1 < cs.len() && cs[i + 1] != '{' {
        let close = hole_end(cs, i + 1);
        proof {
            lemma_hole_end(cs, i + 1);
        }
        text_part(cur) + seq![
            SpecStringPart::Interpolated(SpecExpr::Identifier(crate::text::trimmed(cs.subrange(i + 1, close)))),
        ] + interp_from(cs, if close < cs.len() { close + 1 } else { cs.len() as int }, Seq::empty())
    } else if cs[i] == '{' && i + 1 < cs.len() && cs[i + 1] == '{' {
        interp_from(cs, i + 2, cur.push('{'))
    } else if cs[i] == '}' && i + 1 < cs.len() && cs[i + 1] == '}' {
        interp_from(cs, i + 2, cur.push('}'))
    } else {
        interp_from(cs, i + 1, cur.push(cs[i]))
    }
}

pub proof fn lemma_hole_end(cs: Seq<char>, j: int)
    requires
        0 <= j,
    ensures
        j <= hole_end(cs, j),
        hole_end(cs, j) <= cs.len() || hole_end(cs, j) == j,
        hole_end(cs, j) < cs.len() ==> cs[hole_end(cs, j)] == '}',
        forall|k: int| j <= k < hole_end(cs, j) && k < cs.len() ==> cs[k] != '}',
    decreases cs.len() - j,
{
    if !(j >= cs.len() || cs[j] == '}') {
        lemma_hole_end(cs, j + 1);
    }
}

/// A string literal with `{name}` holes, split into literal text and the
/// names to interpolate; `{{` and `}}` stand for single braces.
pub fn parse_interpolated_string(s: &str) -> (r: Expr)
    ensures
        r@ == SpecExpr::InterpolatedString(interp_from(s@, 0, Seq::empty())),
{
    let mut parts: Vec<StringPart> = Vec::new();
    let mut current = String::new();
    let mut has_text = false;
    let chars = crate::text::chars_of(s);
    let ghost cs = s@;
    let ghost target = interp_from(cs, 0, Seq::empty());
    let mut i: usize = 0;
    proof {
        assert(crate::ast::parts_view(parts@) =~= Seq::<SpecStringPart>::empty());
        assert(Seq::<SpecStringPart>::empty() + target =~= target);
    }
    while i < chars.len()
        invariant
            chars@ == cs,
            i <= chars@.len(),
            has_text == (current@.len() > 0),
            crate::ast::parts_view(parts@) + interp_from(cs, i as int, current@) == target,
        decreases chars.len() - i,
    {
        let ghost p0 = crate::ast::parts_view(parts@);
        let ghost i0 = i as int;
        let ghost cur0 = current@;
        if chars[i] == '{' && i + 1 < chars.len() && chars[i + 1] != '{' {
            if has_text {
                let lit = StringPart::Literal(current);
                proof {
                    crate::ast::lemma_parts_view_push(parts@, lit);
                }
                parts.push(lit);
                current = String::new();
                has_text = false;
            }
            proof {
                assert(crate::ast::parts_view(parts@) == p0 + text_part(cur0));
            }
            i = i + 1;
            let mut expr_str = String::new();
            let ghost start = i as int;
            proof {
                lemma_hole_end(cs, start);
                assert(cs.subrange(start, start) =~= expr_str@);
            }
            while i < chars.len() && chars[i] != '}'
                invariant
                    chars@ == cs,
                    0 <= start <= i <= chars@.len(),
                    hole_end(cs, start) == hole_end(cs, i as int),
                    expr_str@ == cs.subrange(start, i as int),
                decreases chars.len() - i,
            {
                let c = chars[i];
                proof {
                    assert(c == cs[i as int]);
                    assert(cs.subrange(start, i + 1) =~= cs.subrange(start, i as int).push(c));
                    assert(cs[i as int] != '}');
                }
                push_char(&mut expr_str, c);
                i = i + 1;
            }
            let ghost close = i as int;
            proof {
                assert(hole_end(cs, close) == close);
                assert(hole_end(cs, start) == close);
            }
            if i < chars.len() {
                i = i + 1;
            }
            let name = crate::text::trim(expr_str.as_str());
            let part = StringPart::Interpolated(Expr::Identifier(name));
            let ghost before = parts@;
            proof {
                crate::ast::lemma_parts_view_push(parts@, part);
            }
            parts.push(part);
            proof {
                let hole = SpecStringPart::Interpolated(SpecExpr::Identifier(crate::text::trimmed(cs.subrange(start, close))));
                assert(crate::ast::parts_view(parts@) == p0 + text_part(cur0) + seq![hole]);
                assert(current@ =~= Seq::<char>::empty());
                assert(interp_from(cs, i as int, current@) == interp_from(cs, i as int, Seq::empty()));
                assert(interp_from(cs, i0, cur0) == text_part(cur0) + seq![hole] + interp_from(cs, i as int, Seq::empty()));
                assert(p0 + (text_part(cur0) + seq![hole] + interp_from(cs, i as int, Seq::empty()))
                    =~= p0 + text_part(cur0) + seq![hole] + interp_from(cs, i as int, Seq::empty()));
            }
        } else if chars[i] == '{' && i + 1 < chars.len() && chars[i + 1] == '{' {
            push_char(&mut current, '{');
            has_text = true;
            i = i + 2;
        } else if chars[i] == '}' && i + 1 < chars.len() && chars[i + 1] == '}' {
            push_char(&mut current, '}');
            has_text = true;
            i = i + 2;
        } else {
            push_char(&mut current, chars[i]);
            has_text = true;
            i = i + 1;
        }
    }
    if has_text {
        let lit = StringPart::Literal(current);
        proof {
            crate::ast::lemma_parts_view_push(parts@, lit);
        }
        parts.push(lit);
    }
    proof {
        assert(crate::ast::parts_view(parts@) =~= target);
    }
    Expr::InterpolatedString(parts)
}


impl Parser {
    // ── Statements ──────────────────────────────────────────────────────

    /// The whole token stream as a program: statements up to the end
    /// marker, blank lines between them skipped.
    #[verifier::loop_isolation(false)]
    pub fn parse_program(&mut self) -> (r: Result<Program, ParseError>)
        requires
            old(self).inv(),
        ensures
            kept(old(self), final(self), r is Ok),
            r is Ok ==> is_sym(final(self).ts(), final(self).position(), Sym::Eof),
            blank_rest(old(self).ts(), old(self).position()) ==> (r matches Ok(p) && p@.statements.len() == 0),
    {
        let mut stmts: Vec<Stmt> = Vec::new();
        while !self.at_end()
            invariant
                self.inv(),
                self.same_input(old(self)),
                self.pos >= old(self).pos,
                blank_rest(old(self).ts(), old(self).position()) ==> (stmts@.len() == 0 && self.pos == old(self).pos),
            decreases self.tokens@.len() - self.pos,
        {
            self.skip_newlines();
            if self.at_end() {
                break;
            }
            assert(!blank_rest(old(self).ts(), old(self).position()));
            let st = self.parse_stmt()?;
            stmts.push(st);
        }
        Ok(Program { statements: stmts })
    }

    /// Identifiers separated by `sep`, after a first one already read.
    #[verifier::loop_isolation(false)]
    fn parse_more_idents(&mut self, first: String, sep: Sym) -> (r: Result<Vec<String>, ParseError>)
        requires
            old(self).inv(),
        ensures
            kept(old(self), final(self), r is Ok),
            r matches Ok(v) ==> v@.len() >= 1 && v@[0]@ == first@,
    {
        let mut names: Vec<String> = Vec::new();
        names.push(first);
        while self.eat(sep)
            invariant
                self.inv(),
                self.same_input(old(self)),
                self.pos >= old(self).pos,
                names@.len() >= 1,
                names@[0]@ == first@,
            decreases self.tokens@.len() - self.pos,
        {
            let n = self.consume_identifier()?;
            names.push(n);
        }
        Ok(names)
    }

    /// `: type`, if the next token is a colon.
    fn parse_opt_annotation(&mut self) -> (r: Result<Option<Type>, ParseError>)
        requires
            old(self).inv(),
        ensures
            kept(old(self), final(self), r is Ok),
    {
        if self.eat(Sym::Colon) {
            let t = self.parse_type()?;
            Ok(Some(t))
        } else {
            Ok(None)
        }
    }

    /// `, "message"` of an assertion, if present.
    fn parse_opt_message(&mut self, what: &str) -> (r: Result<Option<String>, ParseError>)
        requires
            old(self).inv(),
        ensures
            kept(old(self), final(self), r is Ok),
    {
        if self.eat(Sym::Comma) {
            let m = self.expect_string(what)?;
            Ok(Some(m))
        } else {
            Ok(None)
        }
    }

    #[verifier::loop_isolation(false)]
    #[verifier::rlimit(100)]
    #[verifier::spinoff_prover]
    fn parse_stmt(&mut self) -> (r: Result<Stmt, ParseError>)
        requires
            old(self).inv(),
        ensures
            progressed(old(self), final(self), r is Ok),
            is_sym(old(self).ts(), old(self).pos as int, Sym::KwBreak)
                ==> (r matches Ok(st) && st@ == SpecStmt::Break && final(self).pos == skip_nl(old(self).ts(), old(self).pos + 1)),
            is_sym(old(self).ts(), old(self).pos as int, Sym::KwContinue)
                ==> (r matches Ok(st) && st@ == SpecStmt::Continue && final(self).pos == skip_nl(old(self).ts(), old(self).pos + 1)),
            is_sym(old(self).ts(), old(self).pos as int, Sym::KwPrint) && lone_int(old(self).ts(), old(self).pos + 1) is Some
                ==> (r matches Ok(st) && st@ == SpecStmt::Print(SpecExpr::Integer(lone_int(old(self).ts(), old(self).pos + 1)->0))
                && final(self).pos == skip_nl(old(self).ts(), old(self).pos + 2)),
        decreases old(self).remaining(), 40int,
    {
        // Field assignment: obj.field = value
        if self.peek_is_field_assign() {
            let object = self.consume_identifier()?;
            self.expect(Sym::Dot)?;
            let field = self.consume_identifier()?;
            self.expect(Sym::Assign)?;
            let value = self.parse_expr()?;
            self.skip_newlines();
            return Ok(Stmt::FieldAssign { object, field, value });
        }
        // Element assignment: arr[i] = value; otherwise read again as an expression.
        if self.peek_ident_at(0) && self.peek_sym_at(1, Sym::LeftBracket) {
            let save = self.pos;
            let array = self.consume_identifier()?;
            self.advance();
            let index = self.parse_expr()?;
            self.expect(Sym::RightBracket)?;
            if self.eat(Sym::Assign) {
                let value = self.parse_expr()?;
                self.skip_newlines();
                return Ok(Stmt::IndexAssign { array, index, value });
            }
            self.pos = save;
        }
        // Compound assignment: x += 1
        if self.peek_ident_at(0) && self.peek_next_is_compound_assign() {
            let name = self.consume_identifier()?;
            let op = if self.eat(Sym::PlusAssign) {
                BinOp::Add
            } else if self.eat(Sym::MinusAssign) {
                BinOp::Sub
            } else if self.eat(Sym::StarAssign) {
                BinOp::Mul
            } else {
                self.advance();
                BinOp::Div
            };
            let value = self.parse_expr()?;
            self.skip_newlines();
            return Ok(Stmt::CompoundAssign { name, op, value });
        }
        let kind = self.peek_kind();
        match kind {
            Some(Sym::KwSet) => {
                self.advance();
                let first = self.consume_identifier()?;
                let ty = self.parse_opt_annotation()?;
                if self.peek_sym(Sym::Comma) {
                    let names = self.parse_more_idents(first, Sym::Comma)?;
                    self.expect(Sym::Assign)?;
                    let mut values: Vec<Expr> = Vec::new();
                    let v0 = self.parse_expr()?;
                    values.push(v0);
                    while self.eat(Sym::Comma)
                        invariant
                            self.inv(),
                            self.same_input(old(self)),
                            self.pos > old(self).pos,
                        decreases self.tokens@.len() - self.pos,
                    {
                        let v = self.parse_expr()?;
                        values.push(v);
                    }
                    self.skip_newlines();
                    return Ok(Stmt::MultiAssign { names, values });
                }
                self.expect(Sym::Assign)?;
                let value = self.parse_expr()?;
                self.skip_newlines();
                Ok(Stmt::VarDecl { name: first, ty, value, sensitive: false })
            },
            Some(Sym::KwSensitive) => {
                self.advance();
                self.expect(Sym::KwSet)?;
                let name = self.consume_identifier()?;
                let ty = self.parse_opt_annotation()?;
                self.expect(Sym::Assign)?;
                let value = self.parse_expr()?;
                self.skip_newlines();
                Ok(Stmt::VarDecl { name, ty, value, sensitive: true })
            },
            Some(Sym::KwConst) => {
                self.advance();
                let name = self.consume_identifier()?;
                self.expect(Sym::Assign)?;
                let value = self.parse_expr()?;
                self.skip_newlines();
                Ok(Stmt::ConstDecl { name, value })
            },
            Some(Sym::KwType) => {
                self.advance();
                let name = self.consume_identifier()?;
                self.expect(Sym::Assign)?;
                let ty = self.parse_type()?;
                self.skip_newlines();
                Ok(Stmt::TypeAlias { name, ty })
            },
            Some(Sym::KwNamespace) => {
                self.advance();
                let name = self.consume_identifier()?;
                self.skip_newlines();
                self.expect(Sym::LeftBrace)?;
                let mut body: Vec<Stmt> = Vec::new();
                self.skip_newlines();
                while !self.peek_sym(Sym::RightBrace) && !self.at_end()
                    invariant
                        self.inv(),
                        self.same_input(old(self)),
                        self.pos > old(self).pos,
                    decreases self.tokens@.len() - self.pos,
                {
                    let st = self.parse_stmt()?;
                    body.push(st);
                    self.skip_newlines();
                }
                self.expect(Sym::RightBrace)?;
                self.skip_newlines();
                Ok(Stmt::NamespaceDecl { name, body })
            },
            Some(Sym::KwUse) => {
                self.advance();
                let first = self.consume_identifier()?;
                let path = self.parse_more_idents(first, Sym::DoubleColon)?;
                self.skip_newlines();
                Ok(Stmt::UseDecl { path })
            },
            Some(Sym::KwExtern) => {
                self.advance();
                self.expect(Sym::KwTask)?;
                let name = self.consume_identifier()?;
                self.expect(Sym::LeftParen)?;
                let mut params: Vec<Type> = Vec::new();
                let mut variadic = false;
                if !self.peek_sym(Sym::RightParen) {
                    if self.eat(Sym::DotDot) {
                        variadic = true;
                    } else {
                        let t = self.parse_type()?;
                        params.push(t);
                        while self.eat(Sym::Comma)
                            invariant
                                self.inv(),
                                self.same_input(old(self)),
                                self.pos > old(self).pos,
                            decreases self.tokens@.len() - self.pos,
                        {
                            if self.eat(Sym::DotDot) {
                                variadic = true;
                                break;
                            }
                            let t = self.parse_type()?;
                            params.push(t);
                        }
                    }
                }
                self.expect(Sym::RightParen)?;
                let return_type = if self.eat(Sym::Arrow) {
                    self.parse_type()?
                } else {
                    Type::Void
                };
                self.skip_newlines();
                Ok(Stmt::ExternDecl { name, params, return_type, variadic })
            },
            Some(Sym::KwStruct) => {
                self.advance();
                let name = self.consume_identifier()?;
                let mut type_params: Vec<String> = Vec::new();
                if self.eat(Sym::LeftBracket) {
                    let first = self.consume_identifier()?;
                    type_params = self.parse_more_idents(first, Sym::Comma)?;
                    self.expect(Sym::RightBracket)?;
                }
                self.skip_newlines();
                self.expect(Sym::LeftBrace)?;
                let mut fields: Vec<(String, Type)> = Vec::new();
                self.skip_newlines();
                while !self.peek_sym(Sym::RightBrace) && !self.at_end()
                    invariant
                        self.inv(),
                        self.same_input(old(self)),
                        self.pos > old(self).pos,
                    decreases self.tokens@.len() - self.pos,
                {
                    let fname = self.consume_identifier()?;
                    self.expect(Sym::Colon)?;
                    let ftype = self.parse_type()?;
                    fields.push((fname, ftype));
                    self.skip_newlines();
                }
                self.expect(Sym::RightBrace)?;
                self.skip_newlines();
                Ok(Stmt::StructDecl { name, type_params, fields })
            },
            Some(Sym::KwEnum) => {
                self.advance();
                let name = self.consume_identifier()?;
                self.skip_newlines();
                self.expect(Sym::LeftBrace)?;
                let mut variants: Vec<EnumVariant> = Vec::new();
                self.skip_newlines();
                while !self.peek_sym(Sym::RightBrace) && !self.at_end()
                    invariant
                        self.inv(),
                        self.same_input(old(self)),
                        self.pos > old(self).pos,
                    decreases self.tokens@.len() - self.pos,
                {
                    let vname = self.consume_identifier()?;
                    let ghost start = self.pos;
                    let mut ftypes: Vec<Type> = Vec::new();
                    if self.eat(Sym::LeftParen) {
                        if !self.peek_sym(Sym::RightParen) {
                            let t = self.parse_type()?;
                            ftypes.push(t);
                            while self.eat(Sym::Comma)
                                invariant
                                    self.pos >= start,
                                    self.inv(),
                                    self.same_input(old(self)),
                                    self.pos > old(self).pos,
                                decreases self.tokens@.len() - self.pos,
                            {
                                let t = self.parse_type()?;
                                ftypes.push(t);
                            }
                        }
                        self.expect(Sym::RightParen)?;
                    }
                    variants.push(EnumVariant { name: vname, fields: ftypes });
                    self.eat(Sym::Comma);
                    self.skip_newlines();
                }
                self.expect(Sym::RightBrace)?;
                self.skip_newlines();
                Ok(Stmt::EnumDecl { name, variants })
            },
            Some(Sym::KwTest) => {
                self.advance();
                let name = match self.peek_string_literal() {
                    Some(text) => {
                        self.advance();
                        text
                    },
                    None => {
                        if self.peek_ident_at(0) {
                            self.consume_identifier()?
                        } else {
                            return Err(self.error("expected test name"));
                        }
                    },
                };
                let body = self.parse_block()?;
                Ok(Stmt::TestDecl { name, body })
            },
            Some(Sym::KwAssert) => {
                self.advance();
                self.expect(Sym::LeftParen)?;
                let condition = self.parse_expr()?;
                let message = self.parse_opt_message("expected string message")?;
                self.expect(Sym::RightParen)?;
                self.skip_newlines();
                Ok(Stmt::Assert { condition, message })
            },
            Some(Sym::KwStaticAssert) => {
                self.advance();
                self.expect(Sym::LeftParen)?;
                let condition = self.parse_expr()?;
                let message = self.parse_opt_message("expected string")?;
                self.expect(Sym::RightParen)?;
                self.skip_newlines();
                Ok(Stmt::StaticAssert { condition, message })
            },
            Some(Sym::KwDefer) => {
                self.advance();
                let body = self.parse_block()?;
                Ok(Stmt::Defer { body })
            },
            Some(Sym::KwInline) => {
                self.advance();
                let is_async = self.eat(Sym::KwAsync);
                self.expect(Sym::KwTask)?;
                self.parse_task_body(true, is_async)
            },
            Some(Sym::KwAsync) => {
                self.advance();
                self.expect(Sym::KwTask)?;
                self.parse_task_body(false, true)
            },
            Some(Sym::KwTask) => {
                self.advance();
                self.parse_task_body(false, false)
            },
            Some(Sym::KwCheck) => {
                self.advance();
                let condition = self.parse_expr()?;
                let then_block = self.parse_block()?;
                self.skip_newlines();
                let else_block = if self.eat(Sym::KwElse) {
                    Some(self.parse_block()?)
                } else {
                    None
                };
                Ok(Stmt::Check { condition, then_block, else_block })
            },
            Some(Sym::KwLoop) => {
                self.advance();
                let kind = self.parse_loop_kind()?;
                let body = self.parse_block()?;
                Ok(Stmt::Loop { kind, body })
            },
            Some(Sym::KwMatch) => {
                self.advance();
                let value = self.parse_expr()?;
                self.skip_newlines();
                self.expect(Sym::LeftBrace)?;
                let mut arms: Vec<MatchArm> = Vec::new();
                self.skip_newlines();
                while !self.peek_sym(Sym::RightBrace) && !self.at_end()
                    invariant
                        self.inv(),
                        self.same_input(old(self)),
                        self.pos > old(self).pos,
                    decreases self.tokens@.len() - self.pos,
                {
                    let pattern = self.parse_pattern()?;
                    self.expect(Sym::FatArrow)?;
                    let body = self.parse_block()?;
                    arms.push(MatchArm { pattern, body });
                    self.skip_newlines();
                }
                self.expect(Sym::RightBrace)?;
                self.skip_newlines();
                Ok(Stmt::Match { value, arms })
            },
            Some(Sym::KwSpawn) => {
                self.advance();
                let var = if self.peek_ident_at(0) {
                    Some(self.consume_identifier()?)
                } else {
                    None
                };
                let body = self.parse_block()?;
                Ok(Stmt::Spawn { var, body })
            },
            Some(Sym::KwOverride) => {
                self.advance();
                let body = self.parse_block()?;
                Ok(Stmt::Override { body })
            },
            Some(Sym::KwConstantTime) => {
                self.advance();
                let body = self.parse_block()?;
                Ok(Stmt::ConstantTime { body })
            },
            Some(Sym::KwPurge) => {
                self.advance();
                let variable = self.consume_identifier()?;
                self.skip_newlines();
                Ok(Stmt::Purge { variable })
            },
            Some(Sym::KwFree) => {
                self.advance();
                let ptr = self.parse_expr()?;
                self.skip_newlines();
                Ok(Stmt::Free { ptr })
            },
            Some(Sym::KwBreak) => {
                self.advance();
                self.skip_newlines();
                Ok(Stmt::Break)
            },
            Some(Sym::KwContinue) => {
                self.advance();
                self.skip_newlines();
                Ok(Stmt::Continue)
            },
            Some(Sym::KwPrint) => {
                self.advance();
                let e = self.parse_expr()?;
                self.skip_newlines();
                Ok(Stmt::Print(e))
            },
            Some(Sym::KwPrintFmt) => {
                self.advance();
                self.expect(Sym::LeftParen)?;
                let format = self.expect_string("print_fmt expects a format string")?;
                let mut args: Vec<Expr> = Vec::new();
                while self.eat(Sym::Comma)
                    invariant
                        self.inv(),
                        self.same_input(old(self)),
                        self.pos > old(self).pos,
                    decreases self.tokens@.len() - self.pos,
                {
                    let a = self.parse_expr()?;
                    args.push(a);
                }
                self.expect(Sym::RightParen)?;
                self.skip_newlines();
                Ok(Stmt::PrintFmt { format, args })
            },
            Some(Sym::KwReturn) => {
                self.advance();
                let e = if self.peek_is_expr_start() {
                    Some(self.parse_expr()?)
                } else {
                    None
                };
                self.skip_newlines();
                Ok(Stmt::Return(e))
            },
            Some(Sym::KwAsm) => {
                self.advance();
                self.expect(Sym::LeftParen)?;
                let code = self.expect_string("expected assembly string")?;
                self.expect(Sym::RightParen)?;
                self.skip_newlines();
                Ok(Stmt::Asm(code))
            },
            Some(Sym::KwImport) => {
                self.advance();
                let path = self.expect_string("expected import path")?;
                self.skip_newlines();
                Ok(Stmt::Import(path))
            },
            _ => {
                if self.peek_ident_at(0) && self.peek_next_is_assign() {
                    let name = self.consume_identifier()?;
                    self.expect(Sym::Assign)?;
                    let value = self.parse_expr()?;
                    self.skip_newlines();
                    Ok(Stmt::Assign { name, value })
                } else {
                    let e = self.parse_expr()?;
                    self.skip_newlines();
                    Ok(Stmt::ExprStmt(e))
                }
            },
        }
    }

    /// A pattern of a `match` arm.
    #[verifier::loop_isolation(false)]
    fn parse_pattern(&mut self) -> (r: Result<Pattern, ParseError>)
        requires
            old(self).inv(),
        ensures
            progressed(old(self), final(self), r is Ok),
    {
        if self.pos >= self.tokens.len() || self.at_end() {
            return Err(self.error("expected pattern"));
        }
        let tok = self.peek_token();
        self.advance();
        match tok {
            Token::Identifier(name) => {
                if str_eq(name.as_str(), "_") {
                    return Ok(Pattern::Wildcard);
                }
                if self.eat(Sym::LeftParen) {
                    let mut bindings: Vec<String> = Vec::new();
                    if !self.peek_sym(Sym::RightParen) {
                        let first = self.consume_identifier()?;
                        bindings = self.parse_more_idents(first, Sym::Comma)?;
                    }
                    self.expect(Sym::RightParen)?;
                    return Ok(Pattern::EnumVariantCapture { variant: name, bindings });
                }
                if self.eat(Sym::DoubleColon) {
                    let variant = self.consume_identifier()?;
                    return Ok(Pattern::EnumVariant(variant));
                }
                Ok(Pattern::EnumVariant(name))
            },
            Token::Integer(n) => {
                if self.eat(Sym::DotDot) {
                    let end = self.peek_integer_at(0);
                    self.advance();
                    if let Some(e) = end {
                        return Ok(Pattern::Range(n, e));
                    }
                }
                Ok(Pattern::IntLiteral(n))
            },
            Token::Sym(Sym::KwTrue) => Ok(Pattern::BoolLiteral(true)),
            Token::Sym(Sym::KwFalse) => Ok(Pattern::BoolLiteral(false)),
            Token::StringLiteral(text) => Ok(Pattern::StringLiteral(text)),
            _ => Ok(Pattern::Wildcard),
        }
    }

    /// What follows `loop`: nothing, `i from a to b`, `x in xs`, `n times`
    /// or a condition.
    fn parse_loop_kind(&mut self) -> (r: Result<LoopKind, ParseError>)
        requires
            old(self).inv(),
        ensures
            kept(old(self), final(self), r is Ok),
        decreases old(self).remaining(), 25int,
    {
        if self.peek_sym(Sym::LeftBrace) {
            return Ok(LoopKind::Infinite);
        }
        if self.peek_ident_at(0) && self.peek_sym_at(1, Sym::KwFrom) {
            let var = self.consume_identifier()?;
            self.expect(Sym::KwFrom)?;
            let from = self.parse_expr()?;
            if self.eat(Sym::DotDot) {
                let to = self.parse_expr()?;
                return Ok(LoopKind::FromTo { var, from, to });
            }
            self.expect(Sym::KwTo)?;
            let to = self.parse_expr()?;
            return Ok(LoopKind::FromTo { var, from, to });
        }
        if self.peek_ident_at(0) && self.peek_sym_at(1, Sym::KwIn) {
            let var = self.consume_identifier()?;
            self.advance();
            let iterable = self.parse_expr()?;
            return Ok(LoopKind::ForEach { var, iterable });
        }
        let e = self.parse_expr()?;
        if self.eat(Sym::KwTimes) {
            Ok(LoopKind::Times(e))
        } else {
            Ok(LoopKind::While(e))
        }
    }

    /// `name: type`, one parameter of a task.
    fn parse_param(&mut self) -> (r: Result<(String, Type), ParseError>)
        requires
            old(self).inv(),
        ensures
            progressed(old(self), final(self), r is Ok),
    {
        let pn = self.consume_identifier()?;
        self.expect(Sym::Colon)?;
        let pt = self.parse_type()?;
        Ok((pn, pt))
    }

    /// The rest of a task declaration, after `task`.
    #[verifier::loop_isolation(false)]
    fn parse_task_body(&mut self, is_inline: bool, is_async: bool) -> (r: Result<Stmt, ParseError>)
        requires
            old(self).inv(),
        ensures
            progressed(old(self), final(self), r is Ok),
        decreases old(self).remaining(), 30int,
    {
        let name = self.consume_identifier()?;
        let mut type_params: Vec<String> = Vec::new();
        if self.eat(Sym::LeftBracket) {
            let first = self.consume_identifier()?;
            type_params = self.parse_more_idents(first, Sym::Comma)?;
            self.expect(Sym::RightBracket)?;
        }
        let mut constraints: Vec<(String, Vec<String>)> = Vec::new();
        if self.eat(Sym::KwWhere) {
            loop
                invariant
                    self.inv(),
                    self.same_input(old(self)),
                    self.pos > old(self).pos,
                decreases self.tokens@.len() - self.pos,
            {
                let tp = self.consume_identifier()?;
                self.expect(Sym::Colon)?;
                let first = self.consume_identifier()?;
                let cs = self.parse_more_idents(first, Sym::Plus)?;
                constraints.push((tp, cs));
                if !self.eat(Sym::Comma) {
                    break;
                }
            }
        }
        self.expect(Sym::LeftParen)?;
        let mut params: Vec<(String, Type)> = Vec::new();
        if !self.peek_sym(Sym::RightParen) {
            let p0 = self.parse_param()?;
            params.push(p0);
            while self.eat(Sym::Comma)
                invariant
                    self.inv(),
                    self.same_input(old(self)),
                    self.pos > old(self).pos,
                decreases self.tokens@.len() - self.pos,
            {
                let p = self.parse_param()?;
                params.push(p);
            }
        }
        self.expect(Sym::RightParen)?;
        let return_type = if self.eat(Sym::Arrow) {
            self.parse_type()?
        } else {
            Type::Void
        };
        let body = self.parse_block()?;
        Ok(Stmt::TaskDecl { name, type_params, constraints, params, return_type, body, is_inline, is_async })
    }

    /// `{ statements [tail expression] }`.
    #[verifier::loop_isolation(false)]
    fn parse_block(&mut self) -> (r: Result<Block, ParseError>)
        requires
            old(self).inv(),
        ensures
            progressed(old(self), final(self), r is Ok),
        decreases old(self).remaining(), 35int,
    {
        self.skip_newlines();
        self.expect(Sym::LeftBrace)?;
        let mut stmts: Vec<Stmt> = Vec::new();
        let mut tail: Option<Expr> = None;
        self.skip_newlines();
        while !self.peek_sym(Sym::RightBrace) && !self.at_end()
            invariant
                self.inv(),
                self.same_input(old(self)),
                self.pos > old(self).pos,
            decreases self.tokens@.len() - self.pos,
        {
            if self.peek_is_stmt_start() {
                let st = self.parse_stmt()?;
                stmts.push(st);
                self.skip_newlines();
            } else {
                let e = self.parse_expr()?;
                self.skip_newlines();
                if self.peek_sym(Sym::RightBrace) {
                    tail = Some(e);
                    break;
                } else {
                    stmts.push(Stmt::ExprStmt(e));
                    self.skip_newlines();
                }
            }
        }
        self.expect(Sym::RightBrace)?;
        self.skip_newlines();
        Ok(Block { statements: stmts, tail_expr: tail })
    }
}
} // verus!
