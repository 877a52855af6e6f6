//! The lexer: Sovereign source text to tokens with their (line, column).
//!
//! Blanks, tabs and carriage returns separate tokens; a line break is a
//! `Newline` token; `//` starts a comment that runs to the end of the line.
//! Words made of ASCII letters, digits and `_` are identifiers or keywords;
//! digits make an integer literal, or a floating-point literal when a `.`
//! and another digit follow; `"` opens a string literal in which `\n`, `\t`,
//! `\"` and `\\` are escapes (any other escaped character stands for itself).
use vstd::prelude::*;
use crate::token::{Sym, Token, SpecToken, tokens_view};
use crate::text::{str_eq, push_char};

verus! {

pub open spec fn is_digit(c: char) -> bool {
    '0' <= c && c <= '9'
}

pub open spec fn is_ident_start(c: char) -> bool {
    ('a' <= c && c <= 'z') || ('A' <= c && c <= 'Z') || c == '_'
}

pub open spec fn is_ident_char(c: char) -> bool {
    is_ident_start(c) || is_digit(c)
}

/// First position at or after `i` whose character cannot continue a word.
pub open spec fn scan_ident(cs: Seq<char>, i: int) -> int
    decreases cs.len() - i,
{
    if 0 <= i < cs.len() && is_ident_char(cs[i]) {
        scan_ident(cs, i + 1)
    } else {
        i
    }
}

/// First position at or after `i` that is not a decimal digit.
pub open spec fn scan_digits(cs: Seq<char>, i: int) -> int
    decreases cs.len() - i,
{
    if 0 <= i < cs.len() && is_digit(cs[i]) {
        scan_digits(cs, i + 1)
    } else {
        i
    }
}

/// First line break at or after `i` (or the end of the text).
pub open spec fn scan_to_newline(cs: Seq<char>, i: int) -> int
    decreases cs.len() - i,
{
    if 0 <= i < cs.len() && cs[i] != '\n' {
        scan_to_newline(cs, i + 1)
    } else {
        i
    }
}

/// The number that the decimal digits `cs[start..end]` spell.
pub open spec fn digits_value(cs: Seq<char>, start: int, end: int) -> int
    decreases end - start,
{
    if end <= start {
        0
    } else {
        digits_value(cs, start, end - 1) * 10 + (cs[end - 1] as int - '0' as int)
    }
}

pub open spec fn unescape(c: char) -> char {
    if c == 'n' {
        '\n'
    } else if c == 't' {
        '\t'
    } else {
        c
    }
}

/// The contents of a string literal whose body starts at `i`, and the
/// position after its closing quote; `None` when it is not closed.
pub open spec fn scan_string(cs: Seq<char>, i: int, acc: Seq<char>) -> Option<(Seq<char>, int)>
    decreases cs.len() - i,
{
    if i < 0 || i >= cs.len() {
        None
    } else if cs[i] == '"' {
        Some((acc, i + 1))
    } else if cs[i] == '\\' {
        if i + 1 >= cs.len() {
            None
        } else {
            scan_string(cs, i + 2, acc.push(unescape(cs[i + 1])))
        }
    } else {
        scan_string(cs, i + 1, acc.push(cs[i]))
    }
}

pub open spec fn keyword_of(w: Seq<char>) -> Option<Sym> {
    if w == "set"@ { Some(Sym::KwSet) }
    else if w == "sensitive"@ { Some(Sym::KwSensitive) }
    else if w == "const"@ { Some(Sym::KwConst) }
    else if w == "type"@ { Some(Sym::KwType) }
    else if w == "task"@ { Some(Sym::KwTask) }
    else if w == "inline"@ { Some(Sym::KwInline) }
    else if w == "async"@ { Some(Sym::KwAsync) }
    else if w == "check"@ { Some(Sym::KwCheck) }
    else if w == "else"@ { Some(Sym::KwElse) }
    else if w == "loop"@ { Some(Sym::KwLoop) }
    else if w == "from"@ { Some(Sym::KwFrom) }
    else if w == "to"@ { Some(Sym::KwTo) }
    else if w == "in"@ { Some(Sym::KwIn) }
    else if w == "times"@ { Some(Sym::KwTimes) }
    else if w == "override"@ { Some(Sym::KwOverride) }
    else if w == "purge"@ { Some(Sym::KwPurge) }
    else if w == "print"@ { Some(Sym::KwPrint) }
    else if w == "print_fmt"@ { Some(Sym::KwPrintFmt) }
    else if w == "return"@ { Some(Sym::KwReturn) }
    else if w == "asm"@ { Some(Sym::KwAsm) }
    else if w == "import"@ { Some(Sym::KwImport) }
    else if w == "break"@ { Some(Sym::KwBreak) }
    else if w == "continue"@ { Some(Sym::KwContinue) }
    else if w == "extern"@ { Some(Sym::KwExtern) }
    else if w == "struct"@ { Some(Sym::KwStruct) }
    else if w == "enum"@ { Some(Sym::KwEnum) }
    else if w == "free"@ { Some(Sym::KwFree) }
    else if w == "constant_time"@ { Some(Sym::KwConstantTime) }
    else if w == "match"@ { Some(Sym::KwMatch) }
    else if w == "spawn"@ { Some(Sym::KwSpawn) }
    else if w == "defer"@ { Some(Sym::KwDefer) }
    else if w == "assert"@ { Some(Sym::KwAssert) }
    else if w == "static_assert"@ { Some(Sym::KwStaticAssert) }
    else if w == "test"@ { Some(Sym::KwTest) }
    else if w == "namespace"@ { Some(Sym::KwNamespace) }
    else if w == "use"@ { Some(Sym::KwUse) }
    else if w == "where"@ { Some(Sym::KwWhere) }
    else if w == "alloc"@ { Some(Sym::KwAlloc) }
    else if w == "Ok"@ { Some(Sym::KwOk) }
    else if w == "Err"@ { Some(Sym::KwErr) }
    else if w == "copy"@ { Some(Sym::KwCopy) }
    else if w == "comptime"@ { Some(Sym::KwComptime) }
    else if w == "await"@ { Some(Sym::KwAwait) }
    else if w == "as"@ { Some(Sym::KwAs) }
    else if w == "true"@ { Some(Sym::KwTrue) }
    else if w == "false"@ { Some(Sym::KwFalse) }
    else if w == "null"@ { Some(Sym::KwNull) }
    else if w == "int8"@ { Some(Sym::KwInt8) }
    else if w == "int16"@ { Some(Sym::KwInt16) }
    else if w == "int64"@ { Some(Sym::KwInt64) }
    else if w == "uint8"@ { Some(Sym::KwUint8) }
    else if w == "uint16"@ { Some(Sym::KwUint16) }
    else if w == "uint32"@ { Some(Sym::KwUint32) }
    else if w == "uint64"@ { Some(Sym::KwUint64) }
    else if w == "and"@ { Some(Sym::And) }
    else if w == "or"@ { Some(Sym::Or) }
    else if w == "not"@ { Some(Sym::Not) }
    else { None }
}

pub open spec fn at(cs: Seq<char>, i: int, c: char) -> bool {
    0 <= i < cs.len() && cs[i] == c
}

/// Operator or punctuation starting at `i`, longest first, with its length.
pub open spec fn punct_of(cs: Seq<char>, i: int) -> Option<(Sym, int)> {
    let c = cs[i];
    if c == '.' && at(cs, i + 1, '.') && at(cs, i + 2, '=') { Some((Sym::DotDotEq, 3)) }
    else if c == '.' && at(cs, i + 1, '.') { Some((Sym::DotDot, 2)) }
    else if c == ':' && at(cs, i + 1, ':') { Some((Sym::DoubleColon, 2)) }
    else if c == '-' && at(cs, i + 1, '>') { Some((Sym::Arrow, 2)) }
    else if c == '=' && at(cs, i + 1, '>') { Some((Sym::FatArrow, 2)) }
    else if c == '=' && at(cs, i + 1, '=') { Some((Sym::EqualEqual, 2)) }
    else if c == '!' && at(cs, i + 1, '=') { Some((Sym::NotEqual, 2)) }
    else if c == '<' && at(cs, i + 1, '=') { Some((Sym::LessEqual, 2)) }
    else if c == '>' && at(cs, i + 1, '=') { Some((Sym::GreaterEqual, 2)) }
    else if c == '<' && at(cs, i + 1, '<') { Some((Sym::LessLess, 2)) }
    else if c == '>' && at(cs, i + 1, '>') { Some((Sym::GreaterGreater, 2)) }
    else if c == '+' && at(cs, i + 1, '=') { Some((Sym::PlusAssign, 2)) }
    else if c == '-' && at(cs, i + 1, '=') { Some((Sym::MinusAssign, 2)) }
    else if c == '*' && at(cs, i + 1, '=') { Some((Sym::StarAssign, 2)) }
    else if c == '/' && at(cs, i + 1, '=') { Some((Sym::SlashAssign, 2)) }
    else if c == '|' && at(cs, i + 1, '|') { Some((Sym::Pipe2, 2)) }
    else if c == '&' && at(cs, i + 1, '&') { Some((Sym::And, 2)) }
    else if c == '=' { Some((Sym::Assign, 1)) }
    else if c == '.' { Some((Sym::Dot, 1)) }
    else if c == ':' { Some((Sym::Colon, 1)) }
    else if c == ',' { Some((Sym::Comma, 1)) }
    else if c == '(' { Some((Sym::LeftParen, 1)) }
    else if c == ')' { Some((Sym::RightParen, 1)) }
    else if c == '{' { Some((Sym::LeftBrace, 1)) }
    else if c == '}' { Some((Sym::RightBrace, 1)) }
    else if c == '[' { Some((Sym::LeftBracket, 1)) }
    else if c == ']' { Some((Sym::RightBracket, 1)) }
    else if c == '|' { Some((Sym::Pipe, 1)) }
    else if c == '^' { Some((Sym::Caret, 1)) }
    else if c == '&' { Some((Sym::Ampersand, 1)) }
    else if c == '<' { Some((Sym::Less, 1)) }
    else if c == '>' { Some((Sym::Greater, 1)) }
    else if c == '+' { Some((Sym::Plus, 1)) }
    else if c == '-' { Some((Sym::Minus, 1)) }
    else if c == '*' { Some((Sym::Star, 1)) }
    else if c == '/' { Some((Sym::Slash, 1)) }
    else if c == '%' { Some((Sym::Percent, 1)) }
    else if c == '!' { Some((Sym::Not, 1)) }
    else if c == '~' { Some((Sym::Tilde, 1)) }
    else if c == '?' { Some((Sym::Question, 1)) }
    else { None }
}

/// What the lexer does at position `i`.
pub enum LexStep {
    /// Nothing to emit; go on at the given position.
    Skip(int),
    /// Emit a token; go on at the given position.
    Emit(SpecToken, int),
    /// The text is not a Sovereign token here.
    Fail,
}

pub open spec fn lex_step(cs: Seq<char>, i: int) -> LexStep {
    let c = cs[i];
    if c == ' ' || c == '\t' || c == '\r' {
        LexStep::Skip(i + 1)
    } else if c == '\n' {
        LexStep::Emit(SpecToken::Sym(Sym::Newline), i + 1)
    } else if c == '/' && at(cs, i + 1, '/') {
        LexStep::Skip(scan_to_newline(cs, i + 2))
    } else if is_ident_start(c) {
        let e = scan_ident(cs, i + 1);
        let w = cs.subrange(i, e);
        match keyword_of(w) {
            Some(k) => LexStep::Emit(SpecToken::Sym(k), e),
            None => LexStep::Emit(SpecToken::Identifier(w), e),
        }
    } else if is_digit(c) {
        let e = scan_digits(cs, i + 1);
        if at(cs, e, '.') && e + 1 < cs.len() && is_digit(cs[e + 1]) {
            let e2 = scan_digits(cs, e + 2);
            LexStep::Emit(SpecToken::Float(cs.subrange(i, e2)), e2)
        } else if digits_value(cs, i, e) > i64::MAX {
            LexStep::Fail
        } else {
            LexStep::Emit(SpecToken::Integer(digits_value(cs, i, e) as i64), e)
        }
    } else if c == '"' {
        match scan_string(cs, i + 1, Seq::empty()) {
            Some((s, e)) => LexStep::Emit(SpecToken::StringLiteral(s), e),
            None => LexStep::Fail,
        }
    } else {
        match punct_of(cs, i) {
            Some((k, n)) => LexStep::Emit(SpecToken::Sym(k), i + n),
            None => LexStep::Fail,
        }
    }
}

/// The tokens of `cs[i..]` with the position at which each starts, or
/// `None` when some part of the text is not a token.
pub open spec fn spec_tokens(cs: Seq<char>, i: int) -> Option<Seq<(SpecToken, int)>>
    decreases cs.len() - i,
{
    if i < 0 || i >= cs.len() {
        Some(Seq::empty())
    } else {
        match lex_step(cs, i) {
            LexStep::Skip(j) => if i < j <= cs.len() {
                spec_tokens(cs, j)
            } else {
                None
            },
            LexStep::Emit(t, j) => if i < j <= cs.len() {
                match spec_tokens(cs, j) {
                    Some(rest) => Some(seq![(t, i)] + rest),
                    None => None,
                }
            } else {
                None
            },
            LexStep::Fail => None,
        }
    }
}

/// (line, column), both counted from 1, of position `p`.
pub open spec fn line_col(cs: Seq<char>, p: int) -> (int, int)
    decreases p,
{
    if p <= 0 {
        (1, 1)
    } else {
        let (l, c) = line_col(cs, p - 1);
        if cs[p - 1] == '\n' {
            (l + 1, 1)
        } else {
            (l, c + 1)
        }
    }
}

pub open spec fn spans_of(cs: Seq<char>, toks: Seq<(SpecToken, int)>) -> Seq<(int, int)> {
    toks.map_values(|t: (SpecToken, int)| line_col(cs, t.1))
}

/// Where lexing failed: the (line, column) of the offending character.
pub struct LexError {
    pub line: usize,
    pub col: usize,
}

proof fn lemma_line_col_bound(cs: Seq<char>, p: int)
    requires
        0 <= p,
    ensures
        1 <= line_col(cs, p).0 <= p + 1,
        1 <= line_col(cs, p).1 <= p + 1,
    decreases p,
{
    if p > 0 {
        lemma_line_col_bound(cs, p - 1);
    }
}

fn is_digit_c(c: char) -> (r: bool)
    ensures
        r == is_digit(c),
{
    '0' <= c && c <= '9'
}

fn is_ident_start_c(c: char) -> (r: bool)
    ensures
        r == is_ident_start(c),
{
    ('a' <= c && c <= 'z') || ('A' <= c && c <= 'Z') || c == '_'
}

fn is_ident_char_c(c: char) -> (r: bool)
    ensures
        r == is_ident_char(c),
{
    is_ident_start_c(c) || is_digit_c(c)
}

fn at_c(cs: &Vec<char>, i: usize, c: char) -> (r: bool)
    ensures
        r == at(cs@, i as int, c),
{
    i < cs.len() && cs[i] == c
}

fn scan_ident_c(cs: &Vec<char>, i: usize) -> (r: usize)
    requires
        i <= cs.len(),
    ensures
        r as int == scan_ident(cs@, i as int),
        i <= r <= cs.len(),
{
    let mut j = i;
    while j < cs.len() && is_ident_char_c(cs[j])
        invariant
            i <= j <= cs.len(),
            scan_ident(cs@, i as int) == scan_ident(cs@, j as int),
        decreases cs.len() - j,
    {
        j = j + 1;
    }
    j
}

fn scan_digits_c(cs: &Vec<char>, i: usize) -> (r: usize)
    requires
        i <= cs.len(),
    ensures
        r as int == scan_digits(cs@, i as int),
        i <= r <= cs.len(),
{
    let mut j = i;
    while j < cs.len() && is_digit_c(cs[j])
        invariant
            i <= j <= cs.len(),
            scan_digits(cs@, i as int) == scan_digits(cs@, j as int),
        decreases cs.len() - j,
    {
        j = j + 1;
    }
    j
}

fn scan_to_newline_c(cs: &Vec<char>, i: usize) -> (r: usize)
    requires
        i <= cs.len(),
    ensures
        r as int == scan_to_newline(cs@, i as int),
        i <= r <= cs.len(),
{
    let mut j = i;
    while j < cs.len() && cs[j] != '\n'
        invariant
            i <= j <= cs.len(),
            scan_to_newline(cs@, i as int) == scan_to_newline(cs@, j as int),
        decreases cs.len() - j,
    {
        j = j + 1;
    }
    j
}

fn text_of(cs: &Vec<char>, i: usize, e: usize) -> (r: String)
    requires
        i <= e <= cs.len(),
    ensures
        r@ == cs@.subrange(i as int, e as int),
{
    let mut s = String::new();
    let mut j = i;
    while j < e
        invariant
            i <= j <= e <= cs.len(),
            s@ == cs@.subrange(i as int, j as int),
        decreases e - j,
    {
        push_char(&mut s, cs[j]);
        assert(cs@.subrange(i as int, j + 1) =~= cs@.subrange(i as int, j as int).push(cs@[j as int]));
        j = j + 1;
    }
    s
}

/// Value of the digits `cs[i..e]`, or `None` when it exceeds `i64::MAX`.
fn digits_value_c(cs: &Vec<char>, i: usize, e: usize) -> (r: Option<i64>)
    requires
        i <= e <= cs.len(),
        forall|k: int| i <= k < e ==> is_digit(#[trigger] cs@[k]),
    ensures
        match r {
            Some(v) => v as int == digits_value(cs@, i as int, e as int),
            None => digits_value(cs@, i as int, e as int) > i64::MAX,
        },
{
    let mut v: i64 = 0;
    let mut j = i;
    while j < e
        invariant
            i <= j <= e <= cs.len(),
            forall|k: int| i <= k < e ==> is_digit(#[trigger] cs@[k]),
            v as int == digits_value(cs@, i as int, j as int),
            0 <= v,
        decreases e - j,
    {
        let d = ((cs[j] as u32) - ('0' as u32)) as i64;
        assert(is_digit(cs@[j as int]));
        if v > (i64::MAX - d) / 10 {
            proof {
                lemma_digits_value_grows(cs@, i as int, j as int + 1, e as int);
            }
            return None;
        }
        v = v * 10 + d;
        j = j + 1;
    }
    Some(v)
}

proof fn lemma_digits_value_grows(cs: Seq<char>, i: int, j: int, e: int)
    requires
        i <= j <= e <= cs.len(),
        forall|k: int| i <= k < e ==> is_digit(#[trigger] cs[k]),
    ensures
        digits_value(cs, i, j) <= digits_value(cs, i, e),
        0 <= digits_value(cs, i, j),
    decreases e - j,
{
    lemma_digits_value_nonneg(cs, i, j);
    if j < e {
        lemma_digits_value_grows(cs, i, j + 1, e);
        assert(is_digit(cs[j]));
    }
}

proof fn lemma_digits_value_nonneg(cs: Seq<char>, i: int, j: int)
    requires
        i <= j <= cs.len(),
        forall|k: int| i <= k < j ==> is_digit(#[trigger] cs[k]),
    ensures
        0 <= digits_value(cs, i, j),
    decreases j - i,
{
    if j > i {
        lemma_digits_value_nonneg(cs, i, j - 1);
        assert(is_digit(cs[j - 1]));
    }
}

proof fn lemma_scan_digits_all(cs: Seq<char>, i: int)
    requires
        0 <= i <= cs.len(),
    ensures
        forall|k: int| i <= k < scan_digits(cs, i) ==> is_digit(#[trigger] cs[k]),
        i <= scan_digits(cs, i) <= cs.len(),
    decreases cs.len() - i,
{
    if i < cs.len() && is_digit(cs[i]) {
        lemma_scan_digits_all(cs, i + 1);
    }
}

fn unescape_c(c: char) -> (r: char)
    ensures
        r == unescape(c),
{
    if c == 'n' {
        '\n'
    } else if c == 't' {
        '\t'
    } else {
        c
    }
}

/// Contents of the string literal whose body starts at `i`.
fn scan_string_c(cs: &Vec<char>, i: usize) -> (r: Option<(String, usize)>)
    requires
        i <= cs.len(),
    ensures
        match scan_string(cs@, i as int, Seq::empty()) {
            Some((s, e)) => r matches Some((rs, re)) && rs@ == s && re as int == e && i < re <= cs.len(),
            None => r is None,
        },
{
    let mut s = String::new();
    let mut j = i;
    proof {
        assert(s@ =~= Seq::<char>::empty());
    }
    while j < cs.len()
        invariant
            i <= j <= cs.len(),
            scan_string(cs@, i as int, Seq::empty()) == scan_string(cs@, j as int, s@),
        decreases cs.len() - j,
    {
        let c = cs[j];
        if c == '"' {
            return Some((s, j + 1));
        } else if c == '\\' {
            if j + 1 >= cs.len() {
                return None;
            }
            push_char(&mut s, unescape_c(cs[j + 1]));
            j = j + 2;
        } else {
            push_char(&mut s, c);
            j = j + 1;
        }
    }
    None
}

fn keyword(w: &str) -> (r: Option<Sym>)
    ensures
        r == keyword_of(w@),
{
    if str_eq(w, "set") { Some(Sym::KwSet) }
    else if str_eq(w, "sensitive") { Some(Sym::KwSensitive) }
    else if str_eq(w, "const") { Some(Sym::KwConst) }
    else if str_eq(w, "type") { Some(Sym::KwType) }
    else if str_eq(w, "task") { Some(Sym::KwTask) }
    else if str_eq(w, "inline") { Some(Sym::KwInline) }
    else if str_eq(w, "async") { Some(Sym::KwAsync) }
    else if str_eq(w, "check") { Some(Sym::KwCheck) }
    else if str_eq(w, "else") { Some(Sym::KwElse) }
    else if str_eq(w, "loop") { Some(Sym::KwLoop) }
    else if str_eq(w, "from") { Some(Sym::KwFrom) }
    else if str_eq(w, "to") { Some(Sym::KwTo) }
    else if str_eq(w, "in") { Some(Sym::KwIn) }
    else if str_eq(w, "times") { Some(Sym::KwTimes) }
    else if str_eq(w, "override") { Some(Sym::KwOverride) }
    else if str_eq(w, "purge") { Some(Sym::KwPurge) }
    else if str_eq(w, "print") { Some(Sym::KwPrint) }
    else if str_eq(w, "print_fmt") { Some(Sym::KwPrintFmt) }
    else if str_eq(w, "return") { Some(Sym::KwReturn) }
    else if str_eq(w, "asm") { Some(Sym::KwAsm) }
    else if str_eq(w, "import") { Some(Sym::KwImport) }
    else if str_eq(w, "break") { Some(Sym::KwBreak) }
    else if str_eq(w, "continue") { Some(Sym::KwContinue) }
    else if str_eq(w, "extern") { Some(Sym::KwExtern) }
    else if str_eq(w, "struct") { Some(Sym::KwStruct) }
    else if str_eq(w, "enum") { Some(Sym::KwEnum) }
    else if str_eq(w, "free") { Some(Sym::KwFree) }
    else if str_eq(w, "constant_time") { Some(Sym::KwConstantTime) }
    else if str_eq(w, "match") { Some(Sym::KwMatch) }
    else if str_eq(w, "spawn") { Some(Sym::KwSpawn) }
    else if str_eq(w, "defer") { Some(Sym::KwDefer) }
    else if str_eq(w, "assert") { Some(Sym::KwAssert) }
    else if str_eq(w, "static_assert") { Some(Sym::KwStaticAssert) }
    else if str_eq(w, "test") { Some(Sym::KwTest) }
    else if str_eq(w, "namespace") { Some(Sym::KwNamespace) }
    else if str_eq(w, "use") { Some(Sym::KwUse) }
    else if str_eq(w, "where") { Some(Sym::KwWhere) }
    else if str_eq(w, "alloc") { Some(Sym::KwAlloc) }
    else if str_eq(w, "Ok") { Some(Sym::KwOk) }
    else if str_eq(w, "Err") { Some(Sym::KwErr) }
    else if str_eq(w, "copy") { Some(Sym::KwCopy) }
    else if str_eq(w, "comptime") { Some(Sym::KwComptime) }
    else if str_eq(w, "await") { Some(Sym::KwAwait) }
    else if str_eq(w, "as") { Some(Sym::KwAs) }
    else if str_eq(w, "true") { Some(Sym::KwTrue) }
    else if str_eq(w, "false") { Some(Sym::KwFalse) }
    else if str_eq(w, "null") { Some(Sym::KwNull) }
    else if str_eq(w, "int8") { Some(Sym::KwInt8) }
    else if str_eq(w, "int16") { Some(Sym::KwInt16) }
    else if str_eq(w, "int64") { Some(Sym::KwInt64) }
    else if str_eq(w, "uint8") { Some(Sym::KwUint8) }
    else if str_eq(w, "uint16") { Some(Sym::KwUint16) }
    else if str_eq(w, "uint32") { Some(Sym::KwUint32) }
    else if str_eq(w, "uint64") { Some(Sym::KwUint64) }
    else if str_eq(w, "and") { Some(Sym::And) }
    else if str_eq(w, "or") { Some(Sym::Or) }
    else if str_eq(w, "not") { Some(Sym::Not) }
    else { None }
}

fn punct(cs: &Vec<char>, i: usize) -> (r: Option<(Sym, usize)>)
    requires
        i < cs.len(),
    ensures
        match punct_of(cs@, i as int) {
            Some((k, n)) => r == Some((k, n as usize)) && 1 <= n <= 3,
            None => r is None,
        },
{
    let c = cs[i];
    let n1 = i + 1;
    if c == '.' && at_c(cs, n1, '.') && i + 2 < cs.len() && cs[i + 2] == '=' { Some((Sym::DotDotEq, 3)) }
    else if c == '.' && at_c(cs, n1, '.') { Some((Sym::DotDot, 2)) }
    else if c == ':' && at_c(cs, n1, ':') { Some((Sym::DoubleColon, 2)) }
    else if c == '-' && at_c(cs, n1, '>') { Some((Sym::Arrow, 2)) }
    else if c == '=' && at_c(cs, n1, '>') { Some((Sym::FatArrow, 2)) }
    else if c == '=' && at_c(cs, n1, '=') { Some((Sym::EqualEqual, 2)) }
    else if c == '!' && at_c(cs, n1, '=') { Some((Sym::NotEqual, 2)) }
    else if c == '<' && at_c(cs, n1, '=') { Some((Sym::LessEqual, 2)) }
    else if c == '>' && at_c(cs, n1, '=') { Some((Sym::GreaterEqual, 2)) }
    else if c == '<' && at_c(cs, n1, '<') { Some((Sym::LessLess, 2)) }
    else if c == '>' && at_c(cs, n1, '>') { Some((Sym::GreaterGreater, 2)) }
    else if c == '+' && at_c(cs, n1, '=') { Some((Sym::PlusAssign, 2)) }
    else if c == '-' && at_c(cs, n1, '=') { Some((Sym::MinusAssign, 2)) }
    else if c == '*' && at_c(cs, n1, '=') { Some((Sym::StarAssign, 2)) }
    else if c == '/' && at_c(cs, n1, '=') { Some((Sym::SlashAssign, 2)) }
    else if c == '|' && at_c(cs, n1, '|') { Some((Sym::Pipe2, 2)) }
    else if c == '&' && at_c(cs, n1, '&') { Some((Sym::And, 2)) }
    else if c == '=' { Some((Sym::Assign, 1)) }
    else if c == '.' { Some((Sym::Dot, 1)) }
    else if c == ':' { Some((Sym::Colon, 1)) }
    else if c == ',' { Some((Sym::Comma, 1)) }
    else if c == '(' { Some((Sym::LeftParen, 1)) }
    else if c == ')' { Some((Sym::RightParen, 1)) }
    else if c == '{' { Some((Sym::LeftBrace, 1)) }
    else if c == '}' { Some((Sym::RightBrace, 1)) }
    else if c == '[' { Some((Sym::LeftBracket, 1)) }
    else if c == ']' { Some((Sym::RightBracket, 1)) }
    else if c == '|' { Some((Sym::Pipe, 1)) }
    else if c == '^' { Some((Sym::Caret, 1)) }
    else if c == '&' { Some((Sym::Ampersand, 1)) }
    else if c == '<' { Some((Sym::Less, 1)) }
    else if c == '>' { Some((Sym::Greater, 1)) }
    else if c == '+' { Some((Sym::Plus, 1)) }
    else if c == '-' { Some((Sym::Minus, 1)) }
    else if c == '*' { Some((Sym::Star, 1)) }
    else if c == '/' { Some((Sym::Slash, 1)) }
    else if c == '%' { Some((Sym::Percent, 1)) }
    else if c == '!' { Some((Sym::Not, 1)) }
    else if c == '~' { Some((Sym::Tilde, 1)) }
    else if c == '?' { Some((Sym::Question, 1)) }
    else { None }
}

/// Exec result of one lexing step: `None` to skip, with the next position.
fn step(cs: &Vec<char>, i: usize) -> (r: Result<(Option<Token>, usize), ()>)
    requires
        i < cs.len(),
    ensures
        match lex_step(cs@, i as int) {
            LexStep::Skip(j) => r matches Ok((None, rj)) && rj as int == j && i < rj <= cs.len(),
            LexStep::Emit(t, j) => r matches Ok((Some(rt), rj)) && rt@ == t && rj as int == j && i
                < rj <= cs.len(),
            LexStep::Fail => r is Err,
        },
{
    let c = cs[i];
    if c == ' ' || c == '\t' || c == '\r' {
        Ok((None, i + 1))
    } else if c == '\n' {
        Ok((Some(Token::Sym(Sym::Newline)), i + 1))
    } else if c == '/' && at_c(cs, i + 1, '/') {
        Ok((None, scan_to_newline_c(cs, i + 2)))
    } else if is_ident_start_c(c) {
        let e = scan_ident_c(cs, i + 1);
        let w = text_of(cs, i, e);
        match keyword(w.as_str()) {
            Some(k) => Ok((Some(Token::Sym(k)), e)),
            None => Ok((Some(Token::Identifier(w)), e)),
        }
    } else if is_digit_c(c) {
        let e = scan_digits_c(cs, i + 1);
        if at_c(cs, e, '.') && e + 1 < cs.len() && is_digit_c(cs[e + 1]) {
            let e2 = scan_digits_c(cs, e + 2);
            Ok((Some(Token::Float(text_of(cs, i, e2))), e2))
        } else {
            proof {
                lemma_scan_digits_all(cs@, i + 1);
            }
            match digits_value_c(cs, i, e) {
                Some(v) => Ok((Some(Token::Integer(v)), e)),
                None => Err(()),
            }
        }
    } else if c == '"' {
        match scan_string_c(cs, i + 1) {
            Some((s, e)) => Ok((Some(Token::StringLiteral(s)), e)),
            None => Err(()),
        }
    } else {
        match punct(cs, i) {
            Some((k, n)) => Ok((Some(Token::Sym(k)), i + n)),
            None => Err(()),
        }
    }
}

fn advance_line_col(cs: &Vec<char>, i: usize, j: usize, line: usize, col: usize) -> (r: (usize, usize))
    requires
        i <= j <= cs.len(),
        cs.len() < usize::MAX,
        (line as int, col as int) == line_col(cs@, i as int),
    ensures
        (r.0 as int, r.1 as int) == line_col(cs@, j as int),
{
    let mut k = i;
    let mut line = line;
    let mut col = col;
    while k < j
        invariant
            i <= k <= j <= cs.len(),
            cs.len() < usize::MAX,
            (line as int, col as int) == line_col(cs@, k as int),
        decreases j - k,
    {
        proof {
            lemma_line_col_bound(cs@, k as int);
        }
        if cs[k] == '\n' {
            line = line + 1;
            col = 1;
        } else {
            col = col + 1;
        }
        k = k + 1;
    }
    (line, col)
}

/// Splits Sovereign source text into tokens, ending with `Eof`, each with
/// the (line, column) at which it starts. Fails at the first character
/// that starts no token, at an unclosed string, and at an integer literal
/// above `i64::MAX`.
pub fn tokenize(source: &str) -> (r: Result<(Vec<Token>, Vec<(usize, usize)>), LexError>)
    requires
        source@.len() < usize::MAX,
    ensures
        match spec_tokens(source@, 0) {
            Some(toks) => r matches Ok((ts, spans)) && tokens_view(ts@) == toks.map_values(
                |t: (SpecToken, int)| t.0,
            ).push(SpecToken::Sym(Sym::Eof)) && spans@.map_values(|p: (usize, usize)| (p.0 as int, p.1 as int))
                == spans_of(source@, toks).push(line_col(source@, source@.len() as int)),
            None => r is Err,
        },
{
    let cs = crate::text::chars_of(source);
    let mut toks: Vec<Token> = Vec::new();
    let mut spans: Vec<(usize, usize)> = Vec::new();
    let mut i: usize = 0;
    let mut line: usize = 1;
    let mut col: usize = 1;
    let ghost mut acc: Seq<(SpecToken, int)> = Seq::empty();
    proof {
        assert(line_col(cs@, 0) == (1int, 1int));
    }
    while i < cs.len()
        invariant
            cs@ == source@,
            cs.len() < usize::MAX,
            i <= cs.len(),
            (line as int, col as int) == line_col(cs@, i as int),
            spec_tokens(cs@, 0) == match spec_tokens(cs@, i as int) {
                Some(rest) => Some(acc + rest),
                None => None::<Seq<(SpecToken, int)>>,
            },
            tokens_view(toks@) == acc.map_values(|t: (SpecToken, int)| t.0),
            spans@.map_values(|p: (usize, usize)| (p.0 as int, p.1 as int)) == spans_of(cs@, acc),
        decreases cs.len() - i,
    {
        match step(&cs, i) {
            Err(()) => {
                return Err(LexError { line, col });
            },
            Ok((tok, j)) => {
                match tok {
                    Some(t) => {
                        proof {
                            let t_spec = t@;
                            assert(spec_tokens(cs@, i as int) == match spec_tokens(cs@, j as int) {
                                Some(rest) => Some(seq![(t_spec, i as int)] + rest),
                                None => None::<Seq<(SpecToken, int)>>,
                            });
                            match spec_tokens(cs@, j as int) {
                                Some(rest) => {
                                    assert(acc + (seq![(t_spec, i as int)] + rest) =~= acc.push(
                                        (t_spec, i as int),
                                    ) + rest);
                                },
                                None => {},
                            }
                            let old_acc = acc;
                            acc = acc.push((t_spec, i as int));
                            assert(spans_of(cs@, acc) =~= spans_of(cs@, old_acc).push(line_col(cs@, i as int)));
                        }
                        let ghost old_toks = toks@;
                        let ghost old_spans = spans@;
                        toks.push(t);
                        spans.push((line, col));
                        proof {
                            assert(toks@ == old_toks.push(t));
                            assert(tokens_view(toks@) =~= tokens_view(old_toks).push(t@));
                            assert(tokens_view(toks@) =~= acc.map_values(|t: (SpecToken, int)| t.0));
                            assert(spans@ == old_spans.push((line, col)));
                            assert(spans@.map_values(|p: (usize, usize)| (p.0 as int, p.1 as int)) =~=
                                old_spans.map_values(|p: (usize, usize)| (p.0 as int, p.1 as int)).push((line as int, col as int)));
                            assert(spans@.map_values(|p: (usize, usize)| (p.0 as int, p.1 as int))
                                =~= spans_of(cs@, acc));
                        }
                    },
                    None => {},
                }
                let lc = advance_line_col(&cs, i, j, line, col);
                line = lc.0;
                col = lc.1;
                i = j;
            },
        }
    }
    proof {
        assert(acc + Seq::<(SpecToken, int)>::empty() =~= acc);
    }
    toks.push(Token::Sym(Sym::Eof));
    spans.push((line, col));
    proof {
        assert(tokens_view(toks@) =~= acc.map_values(|t: (SpecToken, int)| t.0).push(
            SpecToken::Sym(Sym::Eof),
        ));
        assert(spans@.map_values(|p: (usize, usize)| (p.0 as int, p.1 as int)) =~= spans_of(
            cs@,
            acc,
        ).push(line_col(cs@, cs@.len() as int)));
    }
    Ok((toks, spans))
}

} // verus!
