//! Tokens of Sovereign source text.
use vstd::prelude::*;

verus! {

/// Keywords, operators and punctuation: every token that carries no text.
#[derive(Clone, Copy, PartialEq, Eq, Structural, Debug)]
pub enum Sym {
    KwSet,
    KwSensitive,
    KwConst,
    KwType,
    KwTask,
    KwInline,
    KwAsync,
    KwCheck,
    KwElse,
    KwLoop,
    KwFrom,
    KwTo,
    KwIn,
    KwTimes,
    KwOverride,
    KwPurge,
    KwPrint,
    KwPrintFmt,
    KwReturn,
    KwAsm,
    KwImport,
    KwBreak,
    KwContinue,
    KwExtern,
    KwStruct,
    KwEnum,
    KwFree,
    KwConstantTime,
    KwMatch,
    KwSpawn,
    KwDefer,
    KwAssert,
    KwStaticAssert,
    KwTest,
    KwNamespace,
    KwUse,
    KwWhere,
    KwAlloc,
    KwOk,
    KwErr,
    KwCopy,
    KwComptime,
    KwAwait,
    KwAs,
    KwTrue,
    KwFalse,
    KwNull,
    KwInt8,
    KwInt16,
    KwInt64,
    KwUint8,
    KwUint16,
    KwUint32,
    KwUint64,
    Assign,
    PlusAssign,
    MinusAssign,
    StarAssign,
    SlashAssign,
    Dot,
    DotDot,
    DotDotEq,
    DoubleColon,
    Colon,
    Comma,
    Arrow,
    FatArrow,
    LeftParen,
    RightParen,
    LeftBrace,
    RightBrace,
    LeftBracket,
    RightBracket,
    Pipe,
    Pipe2,
    Or,
    And,
    Caret,
    Ampersand,
    EqualEqual,
    NotEqual,
    Less,
    Greater,
    LessEqual,
    GreaterEqual,
    LessLess,
    GreaterGreater,
    Plus,
    Minus,
    Star,
    Slash,
    Percent,
    Not,
    Tilde,
    Question,
    Newline,
    Eof,
}

/// A token. A floating-point literal keeps the text it was written with.
pub enum Token {
    Identifier(String),
    Integer(i64),
    Float(String),
    StringLiteral(String),
    Sym(Sym),
}

pub enum SpecToken {
    Identifier(Seq<char>),
    Integer(i64),
    Float(Seq<char>),
    StringLiteral(Seq<char>),
    Sym(Sym),
}

impl View for Token {
    type V = SpecToken;

    open spec fn view(&self) -> SpecToken {
        match self {
            Token::Identifier(s) => SpecToken::Identifier(s@),
            Token::Integer(n) => SpecToken::Integer(*n),
            Token::Float(s) => SpecToken::Float(s@),
            Token::StringLiteral(s) => SpecToken::StringLiteral(s@),
            Token::Sym(k) => SpecToken::Sym(*k),
        }
    }
}

pub open spec fn tokens_view(s: Seq<Token>) -> Seq<SpecToken> {
    s.map_values(|t: Token| t@)
}

pub fn copy_token(t: &Token) -> (r: Token)
    ensures
        r@ == t@,
{
    match t {
        Token::Identifier(s) => Token::Identifier(s.clone()),
        Token::Integer(n) => Token::Integer(*n),
        Token::Float(s) => Token::Float(s.clone()),
        Token::StringLiteral(s) => Token::StringLiteral(s.clone()),
        Token::Sym(k) => Token::Sym(*k),
    }
}

} // verus!
