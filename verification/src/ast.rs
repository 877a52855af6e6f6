//! The syntax tree of Sovereign programs, and its mathematical model.
//!
//! Every executable node type has a ghost counterpart (`SpecType`,
//! `SpecExpr`, ...) in which strings are `Seq<char>` and vectors are `Seq`.
//! Contracts throughout the crate speak about these models through `@`.
use vstd::prelude::*;

verus! {

// ── Executable syntax tree ──────────────────────────────────────────────

pub struct Program {
    pub statements: Vec<Stmt>,
}

#[allow(inconsistent_fields)]
pub enum Stmt {
    VarDecl { name: String, ty: Option<Type>, value: Expr, sensitive: bool },
    ConstDecl { name: String, value: Expr },
    TypeAlias { name: String, ty: Type },
    Assign { name: String, value: Expr },
    CompoundAssign { name: String, op: BinOp, value: Expr },
    MultiAssign { names: Vec<String>, values: Vec<Expr> },
    Destructure { fields: Vec<String>, from_struct: Option<String>, value: Expr },
    FieldAssign { object: String, field: String, value: Expr },
    IndexAssign { array: String, index: Expr, value: Expr },
    TaskDecl {
        name: String,
        type_params: Vec<String>,
        constraints: Vec<(String, Vec<String>)>,
        params: Vec<(String, Type)>,
        return_type: Type,
        body: Block,
        is_inline: bool,
        is_async: bool,
    },
    ExternDecl { name: String, params: Vec<Type>, return_type: Type, variadic: bool },
    StructDecl { name: String, type_params: Vec<String>, fields: Vec<(String, Type)> },
    EnumDecl { name: String, variants: Vec<EnumVariant> },
    NamespaceDecl { name: String, body: Vec<Stmt> },
    UseDecl { path: Vec<String> },
    TestDecl { name: String, body: Block },
    Check { condition: Expr, then_block: Block, else_block: Option<Block> },
    Loop { kind: LoopKind, body: Block },
    Match { value: Expr, arms: Vec<MatchArm> },
    Override { body: Block },
    ConstantTime { body: Block },
    Spawn { var: Option<String>, body: Block },
    Join { handle: Expr },
    Defer { body: Block },
    Assert { condition: Expr, message: Option<String> },
    StaticAssert { condition: Expr, message: Option<String> },
    Purge { variable: String },
    Free { ptr: Expr },
    Break,
    Continue,
    Print(Expr),
    PrintFmt { format: String, args: Vec<Expr> },
    Return(Option<Expr>),
    Asm(String),
    Import(String),
    ExprStmt(Expr),
}

pub struct EnumVariant {
    pub name: String,
    pub fields: Vec<Type>,
}

pub struct MatchArm {
    pub pattern: Pattern,
    pub body: Block,
}

pub enum Pattern {
    EnumVariant(String),
    EnumVariantCapture { variant: String, bindings: Vec<String> },
    IntLiteral(i64),
    BoolLiteral(bool),
    StringLiteral(String),
    Range(i64, i64),
    Tuple(Vec<Pattern>),
    Wildcard,
}

pub enum LoopKind {
    Infinite,
    Times(Expr),
    FromTo { var: String, from: Expr, to: Expr },
    Range { var: String, range: Expr },
    ForEach { var: String, iterable: Expr },
    While(Expr),
}

pub struct Block {
    pub statements: Vec<Stmt>,
    pub tail_expr: Option<Expr>,
}

/// Expressions. A floating-point literal is kept as the text it was written
/// with; only code generation gives it a machine value.
#[allow(inconsistent_fields)]
pub enum Expr {
    Integer(i64),
    Float(String),
    Boolean(bool),
    StringLiteral(String),
    InterpolatedString(Vec<StringPart>),
    Null,
    Tuple(Vec<Expr>),
    Array(Vec<Expr>),
    Identifier(String),
    NamespacedIdent { namespace: String, name: String },
    EnumVariant { enum_name: String, variant: String },
    FieldAccess { object: Box<Expr>, field: String },
    TupleIndex { tuple: Box<Expr>, index: usize },
    StructLiteral { name: String, fields: Vec<(String, Expr)> },
    BinaryOp { left: Box<Expr>, op: BinOp, right: Box<Expr> },
    UnaryOp { op: UnaryOp, operand: Box<Expr> },
    Cast { expr: Box<Expr>, to: Type },
    StrLen(Box<Expr>),
    StrConcat(Box<Expr>, Box<Expr>),
    StrSlice { s: Box<Expr>, start: Box<Expr>, end: Box<Expr> },
    StrContains { s: Box<Expr>, needle: Box<Expr> },
    StrToInt(Box<Expr>),
    IntToStr(Box<Expr>),
    OkExpr(Box<Expr>),
    ErrExpr(Box<Expr>),
    IsOk(Box<Expr>),
    Unwrap(Box<Expr>),
    PropagateErr(Box<Expr>),
    Closure { params: Vec<(String, Option<Type>)>, body: Box<Expr> },
    Await(Box<Expr>),
    Comptime(Box<Expr>),
    Nullable(Box<Expr>),
    Range { start: Box<Expr>, end: Box<Expr>, inclusive: bool },
    Call { func: Box<Expr>, args: Vec<Expr>, named: Vec<(String, Expr)> },
    Alloc { count: Box<Expr>, size: Box<Expr> },
    Index { array: Box<Expr>, index: Box<Expr> },
    Copy(Box<Expr>),
    AddressOf(Box<Expr>),
    Deref(Box<Expr>),
    Min(Box<Expr>, Box<Expr>),
    Max(Box<Expr>, Box<Expr>),
    Abs(Box<Expr>),
}

pub enum StringPart {
    Literal(String),
    Interpolated(Expr),
}

#[derive(Clone, Copy, PartialEq, Eq, Structural, Debug)]
pub enum BinOp {
    Add,
    Sub,
    Mul,
    Div,
    Mod,
    Eq,
    Neq,
    Lt,
    Gt,
    Le,
    Ge,
    And,
    Or,
    BitAnd,
    BitOr,
    BitXor,
    Shl,
    Shr,
}

#[derive(Clone, Copy, PartialEq, Eq, Structural, Debug)]
pub enum UnaryOp {
    Neg,
    Not,
    BitNot,
}

pub enum Type {
    Int,
    Int8,
    Int16,
    Int64,
    Uint8,
    Uint16,
    Uint32,
    Uint64,
    Float,
    Float32,
    Bool,
    String,
    Array(Box<Type>),
    Slice(Box<Type>),
    Tuple(Vec<Type>),
    Ptr,
    Struct(String),
    Enum(String),
    Result(Box<Type>),
    Nullable(Box<Type>),
    Generic(String),
    Fn(Vec<Type>, Box<Type>),
    Async(Box<Type>),
    Void,
}

// ── Models ──────────────────────────────────────────────────────────────

#[allow(inconsistent_fields)]
pub enum SpecType {
    Int,
    Int8,
    Int16,
    Int64,
    Uint8,
    Uint16,
    Uint32,
    Uint64,
    Float,
    Float32,
    Bool,
    String,
    Array(Box<SpecType>),
    Slice(Box<SpecType>),
    Tuple(Seq<SpecType>),
    Ptr,
    Struct(Seq<char>),
    Enum(Seq<char>),
    Result(Box<SpecType>),
    Nullable(Box<SpecType>),
    Generic(Seq<char>),
    Fn(Seq<SpecType>, Box<SpecType>),
    Async(Box<SpecType>),
    Void,
}

#[allow(inconsistent_fields)]
pub enum SpecPattern {
    EnumVariant(Seq<char>),
    EnumVariantCapture { variant: Seq<char>, bindings: Seq<Seq<char>> },
    IntLiteral(i64),
    BoolLiteral(bool),
    StringLiteral(Seq<char>),
    Range(i64, i64),
    Tuple(Seq<SpecPattern>),
    Wildcard,
}

#[allow(inconsistent_fields)]
pub enum SpecExpr {
    Integer(i64),
    Float(Seq<char>),
    Boolean(bool),
    StringLiteral(Seq<char>),
    InterpolatedString(Seq<SpecStringPart>),
    Null,
    Tuple(Seq<SpecExpr>),
    Array(Seq<SpecExpr>),
    Identifier(Seq<char>),
    NamespacedIdent { namespace: Seq<char>, name: Seq<char> },
    EnumVariant { enum_name: Seq<char>, variant: Seq<char> },
    FieldAccess { object: Box<SpecExpr>, field: Seq<char> },
    TupleIndex { tuple: Box<SpecExpr>, index: usize },
    StructLiteral { name: Seq<char>, fields: Seq<(Seq<char>, SpecExpr)> },
    BinaryOp { left: Box<SpecExpr>, op: BinOp, right: Box<SpecExpr> },
    UnaryOp { op: UnaryOp, operand: Box<SpecExpr> },
    Cast { expr: Box<SpecExpr>, to: SpecType },
    StrLen(Box<SpecExpr>),
    StrConcat(Box<SpecExpr>, Box<SpecExpr>),
    StrSlice { s: Box<SpecExpr>, start: Box<SpecExpr>, end: Box<SpecExpr> },
    StrContains { s: Box<SpecExpr>, needle: Box<SpecExpr> },
    StrToInt(Box<SpecExpr>),
    IntToStr(Box<SpecExpr>),
    OkExpr(Box<SpecExpr>),
    ErrExpr(Box<SpecExpr>),
    IsOk(Box<SpecExpr>),
    Unwrap(Box<SpecExpr>),
    PropagateErr(Box<SpecExpr>),
    Closure { params: Seq<(Seq<char>, Option<SpecType>)>, body: Box<SpecExpr> },
    Await(Box<SpecExpr>),
    Comptime(Box<SpecExpr>),
    Nullable(Box<SpecExpr>),
    Range { start: Box<SpecExpr>, end: Box<SpecExpr>, inclusive: bool },
    Call { func: Box<SpecExpr>, args: Seq<SpecExpr>, named: Seq<(Seq<char>, SpecExpr)> },
    Alloc { count: Box<SpecExpr>, size: Box<SpecExpr> },
    Index { array: Box<SpecExpr>, index: Box<SpecExpr> },
    Copy(Box<SpecExpr>),
    AddressOf(Box<SpecExpr>),
    Deref(Box<SpecExpr>),
    Min(Box<SpecExpr>, Box<SpecExpr>),
    Max(Box<SpecExpr>, Box<SpecExpr>),
    Abs(Box<SpecExpr>),
}

#[allow(inconsistent_fields)]
pub enum SpecStringPart {
    Literal(Seq<char>),
    Interpolated(SpecExpr),
}

#[allow(inconsistent_fields)]
pub enum SpecLoopKind {
    Infinite,
    Times(SpecExpr),
    FromTo { var: Seq<char>, from: SpecExpr, to: SpecExpr },
    Range { var: Seq<char>, range: SpecExpr },
    ForEach { var: Seq<char>, iterable: SpecExpr },
    While(SpecExpr),
}

pub struct SpecBlock {
    pub statements: Seq<SpecStmt>,
    pub tail_expr: Option<SpecExpr>,
}

pub struct SpecMatchArm {
    pub pattern: SpecPattern,
    pub body: SpecBlock,
}

pub struct SpecEnumVariant {
    pub name: Seq<char>,
    pub fields: Seq<SpecType>,
}

#[allow(inconsistent_fields)]
pub enum SpecStmt {
    VarDecl { name: Seq<char>, ty: Option<SpecType>, value: SpecExpr, sensitive: bool },
    ConstDecl { name: Seq<char>, value: SpecExpr },
    TypeAlias { name: Seq<char>, ty: SpecType },
    Assign { name: Seq<char>, value: SpecExpr },
    CompoundAssign { name: Seq<char>, op: BinOp, value: SpecExpr },
    MultiAssign { names: Seq<Seq<char>>, values: Seq<SpecExpr> },
    Destructure { fields: Seq<Seq<char>>, from_struct: Option<Seq<char>>, value: SpecExpr },
    FieldAssign { object: Seq<char>, field: Seq<char>, value: SpecExpr },
    IndexAssign { array: Seq<char>, index: SpecExpr, value: SpecExpr },
    TaskDecl {
        name: Seq<char>,
        type_params: Seq<Seq<char>>,
        constraints: Seq<(Seq<char>, Seq<Seq<char>>)>,
        params: Seq<(Seq<char>, SpecType)>,
        return_type: SpecType,
        body: SpecBlock,
        is_inline: bool,
        is_async: bool,
    },
    ExternDecl { name: Seq<char>, params: Seq<SpecType>, return_type: SpecType, variadic: bool },
    StructDecl { name: Seq<char>, type_params: Seq<Seq<char>>, fields: Seq<(Seq<char>, SpecType)> },
    EnumDecl { name: Seq<char>, variants: Seq<SpecEnumVariant> },
    NamespaceDecl { name: Seq<char>, body: Seq<SpecStmt> },
    UseDecl { path: Seq<Seq<char>> },
    TestDecl { name: Seq<char>, body: SpecBlock },
    Check { condition: SpecExpr, then_block: SpecBlock, else_block: Option<SpecBlock> },
    Loop { kind: SpecLoopKind, body: SpecBlock },
    Match { value: SpecExpr, arms: Seq<SpecMatchArm> },
    Override { body: SpecBlock },
    ConstantTime { body: SpecBlock },
    Spawn { var: Option<Seq<char>>, body: SpecBlock },
    Join { handle: SpecExpr },
    Defer { body: SpecBlock },
    Assert { condition: SpecExpr, message: Option<Seq<char>> },
    StaticAssert { condition: SpecExpr, message: Option<Seq<char>> },
    Purge { variable: Seq<char> },
    Free { ptr: SpecExpr },
    Break,
    Continue,
    Print(SpecExpr),
    PrintFmt { format: Seq<char>, args: Seq<SpecExpr> },
    Return(Option<SpecExpr>),
    Asm(Seq<char>),
    Import(Seq<char>),
    ExprStmt(SpecExpr),
}

pub struct SpecProgram {
    pub statements: Seq<SpecStmt>,
}

// ── Views ───────────────────────────────────────────────────────────────

pub open spec fn strs_view(s: Seq<String>) -> Seq<Seq<char>> {
    s.map_values(|x: String| x@)
}

pub open spec fn opt_str_view(o: Option<String>) -> Option<Seq<char>> {
    match o {
        Some(s) => Some(s@),
        None => None,
    }
}

pub open spec fn type_view(t: Type) -> SpecType
    decreases t,
{
    match t {
        Type::Int => SpecType::Int,
        Type::Int8 => SpecType::Int8,
        Type::Int16 => SpecType::Int16,
        Type::Int64 => SpecType::Int64,
        Type::Uint8 => SpecType::Uint8,
        Type::Uint16 => SpecType::Uint16,
        Type::Uint32 => SpecType::Uint32,
        Type::Uint64 => SpecType::Uint64,
        Type::Float => SpecType::Float,
        Type::Float32 => SpecType::Float32,
        Type::Bool => SpecType::Bool,
        Type::String => SpecType::String,
        Type::Array(b) => SpecType::Array(Box::new(type_view(*b))),
        Type::Slice(b) => SpecType::Slice(Box::new(type_view(*b))),
        Type::Tuple(v) => SpecType::Tuple(types_view(v@)),
        Type::Ptr => SpecType::Ptr,
        Type::Struct(s) => SpecType::Struct(s@),
        Type::Enum(s) => SpecType::Enum(s@),
        Type::Result(b) => SpecType::Result(Box::new(type_view(*b))),
        Type::Nullable(b) => SpecType::Nullable(Box::new(type_view(*b))),
        Type::Generic(s) => SpecType::Generic(s@),
        Type::Fn(v, r) => SpecType::Fn(types_view(v@), Box::new(type_view(*r))),
        Type::Async(b) => SpecType::Async(Box::new(type_view(*b))),
        Type::Void => SpecType::Void,
    }
}

pub open spec fn types_view(s: Seq<Type>) -> Seq<SpecType>
    decreases s,
{
    if s.len() == 0 {
        Seq::empty()
    } else {
        types_view(s.drop_last()).push(type_view(s.last()))
    }
}

pub open spec fn opt_type_view(o: Option<Type>) -> Option<SpecType> {
    match o {
        Some(t) => Some(type_view(t)),
        None => None,
    }
}

pub open spec fn typed_names_view(s: Seq<(String, Type)>) -> Seq<(Seq<char>, SpecType)> {
    s.map_values(|p: (String, Type)| (p.0@, type_view(p.1)))
}

pub open spec fn closure_params_view(s: Seq<(String, Option<Type>)>) -> Seq<(Seq<char>, Option<SpecType>)> {
    s.map_values(|p: (String, Option<Type>)| (p.0@, opt_type_view(p.1)))
}

pub open spec fn constraints_view(s: Seq<(String, Vec<String>)>) -> Seq<(Seq<char>, Seq<Seq<char>>)> {
    s.map_values(|p: (String, Vec<String>)| (p.0@, strs_view(p.1@)))
}

pub open spec fn variant_view(v: EnumVariant) -> SpecEnumVariant {
    SpecEnumVariant { name: v.name@, fields: types_view(v.fields@) }
}

pub open spec fn variants_view(s: Seq<EnumVariant>) -> Seq<SpecEnumVariant> {
    s.map_values(|v: EnumVariant| variant_view(v))
}

pub open spec fn pattern_view(p: Pattern) -> SpecPattern
    decreases p,
{
    match p {
        Pattern::EnumVariant(s) => SpecPattern::EnumVariant(s@),
        Pattern::EnumVariantCapture { variant, bindings } => SpecPattern::EnumVariantCapture {
            variant: variant@,
            bindings: strs_view(bindings@),
        },
        Pattern::IntLiteral(n) => SpecPattern::IntLiteral(n),
        Pattern::BoolLiteral(b) => SpecPattern::BoolLiteral(b),
        Pattern::StringLiteral(s) => SpecPattern::StringLiteral(s@),
        Pattern::Range(a, b) => SpecPattern::Range(a, b),
        Pattern::Tuple(v) => SpecPattern::Tuple(patterns_view(v@)),
        Pattern::Wildcard => SpecPattern::Wildcard,
    }
}

pub open spec fn patterns_view(s: Seq<Pattern>) -> Seq<SpecPattern>
    decreases s,
{
    if s.len() == 0 {
        Seq::empty()
    } else {
        patterns_view(s.drop_last()).push(pattern_view(s.last()))
    }
}

pub open spec fn bx(e: SpecExpr) -> Box<SpecExpr> {
    Box::new(e)
}

pub open spec fn expr_view(e: Expr) -> SpecExpr
    decreases e,
{
    match e {
        Expr::Integer(n) => SpecExpr::Integer(n),
        Expr::Float(s) => SpecExpr::Float(s@),
        Expr::Boolean(b) => SpecExpr::Boolean(b),
        Expr::StringLiteral(s) => SpecExpr::StringLiteral(s@),
        Expr::InterpolatedString(v) => SpecExpr::InterpolatedString(parts_view(v@)),
        Expr::Null => SpecExpr::Null,
        Expr::Tuple(v) => SpecExpr::Tuple(exprs_view(v@)),
        Expr::Array(v) => SpecExpr::Array(exprs_view(v@)),
        Expr::Identifier(s) => SpecExpr::Identifier(s@),
        Expr::NamespacedIdent { namespace, name } => SpecExpr::NamespacedIdent {
            namespace: namespace@,
            name: name@,
        },
        Expr::EnumVariant { enum_name, variant } => SpecExpr::EnumVariant {
            enum_name: enum_name@,
            variant: variant@,
        },
        Expr::FieldAccess { object, field } => SpecExpr::FieldAccess {
            object: bx(expr_view(*object)),
            field: field@,
        },
        Expr::TupleIndex { tuple, index } => SpecExpr::TupleIndex {
            tuple: bx(expr_view(*tuple)),
            index,
        },
        Expr::StructLiteral { name, fields } => SpecExpr::StructLiteral {
            name: name@,
            fields: named_view(fields@),
        },
        Expr::BinaryOp { left, op, right } => SpecExpr::BinaryOp {
            left: bx(expr_view(*left)),
            op,
            right: bx(expr_view(*right)),
        },
        Expr::UnaryOp { op, operand } => SpecExpr::UnaryOp { op, operand: bx(expr_view(*operand)) },
        Expr::Cast { expr, to } => SpecExpr::Cast { expr: bx(expr_view(*expr)), to: type_view(to) },
        Expr::StrLen(a) => SpecExpr::StrLen(bx(expr_view(*a))),
        Expr::StrConcat(a, b) => SpecExpr::StrConcat(bx(expr_view(*a)), bx(expr_view(*b))),
        Expr::StrSlice { s, start, end } => SpecExpr::StrSlice {
            s: bx(expr_view(*s)),
            start: bx(expr_view(*start)),
            end: bx(expr_view(*end)),
        },
        Expr::StrContains { s, needle } => SpecExpr::StrContains {
            s: bx(expr_view(*s)),
            needle: bx(expr_view(*needle)),
        },
        Expr::StrToInt(a) => SpecExpr::StrToInt(bx(expr_view(*a))),
        Expr::IntToStr(a) => SpecExpr::IntToStr(bx(expr_view(*a))),
        Expr::OkExpr(a) => SpecExpr::OkExpr(bx(expr_view(*a))),
        Expr::ErrExpr(a) => SpecExpr::ErrExpr(bx(expr_view(*a))),
        Expr::IsOk(a) => SpecExpr::IsOk(bx(expr_view(*a))),
        Expr::Unwrap(a) => SpecExpr::Unwrap(bx(expr_view(*a))),
        Expr::PropagateErr(a) => SpecExpr::PropagateErr(bx(expr_view(*a))),
        Expr::Closure { params, body } => SpecExpr::Closure {
            params: closure_params_view(params@),
            body: bx(expr_view(*body)),
        },
        Expr::Await(a) => SpecExpr::Await(bx(expr_view(*a))),
        Expr::Comptime(a) => SpecExpr::Comptime(bx(expr_view(*a))),
        Expr::Nullable(a) => SpecExpr::Nullable(bx(expr_view(*a))),
        Expr::Range { start, end, inclusive } => SpecExpr::Range {
            start: bx(expr_view(*start)),
            end: bx(expr_view(*end)),
            inclusive,
        },
        Expr::Call { func, args, named } => SpecExpr::Call {
            func: bx(expr_view(*func)),
            args: exprs_view(args@),
            named: named_view(named@),
        },
        Expr::Alloc { count, size } => SpecExpr::Alloc {
            count: bx(expr_view(*count)),
            size: bx(expr_view(*size)),
        },
        Expr::Index { array, index } => SpecExpr::Index {
            array: bx(expr_view(*array)),
            index: bx(expr_view(*index)),
        },
        Expr::Copy(a) => SpecExpr::Copy(bx(expr_view(*a))),
        Expr::AddressOf(a) => SpecExpr::AddressOf(bx(expr_view(*a))),
        Expr::Deref(a) => SpecExpr::Deref(bx(expr_view(*a))),
        Expr::Min(a, b) => SpecExpr::Min(bx(expr_view(*a)), bx(expr_view(*b))),
        Expr::Max(a, b) => SpecExpr::Max(bx(expr_view(*a)), bx(expr_view(*b))),
        Expr::Abs(a) => SpecExpr::Abs(bx(expr_view(*a))),
    }
}

pub open spec fn exprs_view(s: Seq<Expr>) -> Seq<SpecExpr>
    decreases s,
{
    if s.len() == 0 {
        Seq::empty()
    } else {
        exprs_view(s.drop_last()).push(expr_view(s.last()))
    }
}

pub open spec fn named_view(s: Seq<(String, Expr)>) -> Seq<(Seq<char>, SpecExpr)>
    decreases s,
{
    if s.len() == 0 {
        Seq::empty()
    } else {
        named_view(s.drop_last()).push((s.last().0@, expr_view(s.last().1)))
    }
}

pub open spec fn parts_view(s: Seq<StringPart>) -> Seq<SpecStringPart>
    decreases s,
{
    if s.len() == 0 {
        Seq::empty()
    } else {
        let last = match s.last() {
            StringPart::Literal(l) => SpecStringPart::Literal(l@),
            StringPart::Interpolated(e) => SpecStringPart::Interpolated(expr_view(e)),
        };
        parts_view(s.drop_last()).push(last)
    }
}

pub open spec fn opt_expr_view(o: Option<Expr>) -> Option<SpecExpr> {
    match o {
        Some(e) => Some(expr_view(e)),
        None => None,
    }
}

pub open spec fn loop_kind_view(k: LoopKind) -> SpecLoopKind {
    match k {
        LoopKind::Infinite => SpecLoopKind::Infinite,
        LoopKind::Times(e) => SpecLoopKind::Times(expr_view(e)),
        LoopKind::FromTo { var, from, to } => SpecLoopKind::FromTo {
            var: var@,
            from: expr_view(from),
            to: expr_view(to),
        },
        LoopKind::Range { var, range } => SpecLoopKind::Range { var: var@, range: expr_view(range) },
        LoopKind::ForEach { var, iterable } => SpecLoopKind::ForEach {
            var: var@,
            iterable: expr_view(iterable),
        },
        LoopKind::While(e) => SpecLoopKind::While(expr_view(e)),
    }
}

pub open spec fn stmt_view(s: Stmt) -> SpecStmt
    decreases s,
{
    match s {
        Stmt::VarDecl { name, ty, value, sensitive } => SpecStmt::VarDecl {
            name: name@,
            ty: opt_type_view(ty),
            value: expr_view(value),
            sensitive,
        },
        Stmt::ConstDecl { name, value } => SpecStmt::ConstDecl { name: name@, value: expr_view(value) },
        Stmt::TypeAlias { name, ty } => SpecStmt::TypeAlias { name: name@, ty: type_view(ty) },
        Stmt::Assign { name, value } => SpecStmt::Assign { name: name@, value: expr_view(value) },
        Stmt::CompoundAssign { name, op, value } => SpecStmt::CompoundAssign {
            name: name@,
            op,
            value: expr_view(value),
        },
        Stmt::MultiAssign { names, values } => SpecStmt::MultiAssign {
            names: strs_view(names@),
            values: exprs_view(values@),
        },
        Stmt::Destructure { fields, from_struct, value } => SpecStmt::Destructure {
            fields: strs_view(fields@),
            from_struct: opt_str_view(from_struct),
            value: expr_view(value),
        },
        Stmt::FieldAssign { object, field, value } => SpecStmt::FieldAssign {
            object: object@,
            field: field@,
            value: expr_view(value),
        },
        Stmt::IndexAssign { array, index, value } => SpecStmt::IndexAssign {
            array: array@,
            index: expr_view(index),
            value: expr_view(value),
        },
        Stmt::TaskDecl {
            name,
            type_params,
            constraints,
            params,
            return_type,
            body,
            is_inline,
            is_async,
        } => SpecStmt::TaskDecl {
            name: name@,
            type_params: strs_view(type_params@),
            constraints: constraints_view(constraints@),
            params: typed_names_view(params@),
            return_type: type_view(return_type),
            body: block_view(body),
            is_inline,
            is_async,
        },
        Stmt::ExternDecl { name, params, return_type, variadic } => SpecStmt::ExternDecl {
            name: name@,
            params: types_view(params@),
            return_type: type_view(return_type),
            variadic,
        },
        Stmt::StructDecl { name, type_params, fields } => SpecStmt::StructDecl {
            name: name@,
            type_params: strs_view(type_params@),
            fields: typed_names_view(fields@),
        },
        Stmt::EnumDecl { name, variants } => SpecStmt::EnumDecl {
            name: name@,
            variants: variants_view(variants@),
        },
        Stmt::NamespaceDecl { name, body } => SpecStmt::NamespaceDecl {
            name: name@,
            body: stmts_view(body@),
        },
        Stmt::UseDecl { path } => SpecStmt::UseDecl { path: strs_view(path@) },
        Stmt::TestDecl { name, body } => SpecStmt::TestDecl { name: name@, body: block_view(body) },
        Stmt::Check { condition, then_block, else_block } => SpecStmt::Check {
            condition: expr_view(condition),
            then_block: block_view(then_block),
            else_block: match else_block {
                Some(b) => Some(block_view(b)),
                None => None,
            },
        },
        Stmt::Loop { kind, body } => SpecStmt::Loop { kind: loop_kind_view(kind), body: block_view(body) },
        Stmt::Match { value, arms } => SpecStmt::Match {
            value: expr_view(value),
            arms: arms_view(arms@),
        },
        Stmt::Override { body } => SpecStmt::Override { body: block_view(body) },
        Stmt::ConstantTime { body } => SpecStmt::ConstantTime { body: block_view(body) },
        Stmt::Spawn { var, body } => SpecStmt::Spawn { var: opt_str_view(var), body: block_view(body) },
        Stmt::Join { handle } => SpecStmt::Join { handle: expr_view(handle) },
        Stmt::Defer { body } => SpecStmt::Defer { body: block_view(body) },
        Stmt::Assert { condition, message } => SpecStmt::Assert {
            condition: expr_view(condition),
            message: opt_str_view(message),
        },
        Stmt::StaticAssert { condition, message } => SpecStmt::StaticAssert {
            condition: expr_view(condition),
            message: opt_str_view(message),
        },
        Stmt::Purge { variable } => SpecStmt::Purge { variable: variable@ },
        Stmt::Free { ptr } => SpecStmt::Free { ptr: expr_view(ptr) },
        Stmt::Break => SpecStmt::Break,
        Stmt::Continue => SpecStmt::Continue,
        Stmt::Print(e) => SpecStmt::Print(expr_view(e)),
        Stmt::PrintFmt { format, args } => SpecStmt::PrintFmt {
            format: format@,
            args: exprs_view(args@),
        },
        Stmt::Return(e) => SpecStmt::Return(opt_expr_view(e)),
        Stmt::Asm(s) => SpecStmt::Asm(s@),
        Stmt::Import(s) => SpecStmt::Import(s@),
        Stmt::ExprStmt(e) => SpecStmt::ExprStmt(expr_view(e)),
    }
}

pub open spec fn stmts_view(s: Seq<Stmt>) -> Seq<SpecStmt>
    decreases s,
{
    if s.len() == 0 {
        Seq::empty()
    } else {
        stmts_view(s.drop_last()).push(stmt_view(s.last()))
    }
}

pub open spec fn block_view(b: Block) -> SpecBlock
    decreases b,
{
    SpecBlock { statements: stmts_view(b.statements@), tail_expr: opt_expr_view(b.tail_expr) }
}

pub open spec fn arms_view(s: Seq<MatchArm>) -> Seq<SpecMatchArm>
    decreases s,
{
    if s.len() == 0 {
        Seq::empty()
    } else {
        arms_view(s.drop_last()).push(
            SpecMatchArm { pattern: pattern_view(s.last().pattern), body: block_view(s.last().body) },
        )
    }
}

impl View for Type {
    type V = SpecType;

    open spec fn view(&self) -> SpecType {
        type_view(*self)
    }
}

impl View for Expr {
    type V = SpecExpr;

    open spec fn view(&self) -> SpecExpr {
        expr_view(*self)
    }
}

impl View for Stmt {
    type V = SpecStmt;

    open spec fn view(&self) -> SpecStmt {
        stmt_view(*self)
    }
}

impl View for Block {
    type V = SpecBlock;

    open spec fn view(&self) -> SpecBlock {
        block_view(*self)
    }
}

impl View for Pattern {
    type V = SpecPattern;

    open spec fn view(&self) -> SpecPattern {
        pattern_view(*self)
    }
}

impl View for Program {
    type V = SpecProgram;

    open spec fn view(&self) -> SpecProgram {
        SpecProgram { statements: stmts_view(self.statements@) }
    }
}


// ── Facts about the views ───────────────────────────────────────────────

pub proof fn lemma_types_view(s: Seq<Type>)
    ensures
        types_view(s).len() == s.len(),
        forall|i: int| 0 <= i < s.len() ==> #[trigger] types_view(s)[i] == type_view(s[i]),
    decreases s.len(),
{
    if s.len() > 0 {
        lemma_types_view(s.drop_last());
    }
}

pub proof fn lemma_types_view_push(s: Seq<Type>, t: Type)
    ensures
        types_view(s.push(t)) == types_view(s).push(type_view(t)),
{
    assert(s.push(t).drop_last() =~= s);
}

pub proof fn lemma_exprs_view(s: Seq<Expr>)
    ensures
        exprs_view(s).len() == s.len(),
        forall|i: int| 0 <= i < s.len() ==> #[trigger] exprs_view(s)[i] == expr_view(s[i]),
    decreases s.len(),
{
    if s.len() > 0 {
        lemma_exprs_view(s.drop_last());
    }
}

pub proof fn lemma_exprs_view_push(s: Seq<Expr>, e: Expr)
    ensures
        exprs_view(s.push(e)) == exprs_view(s).push(expr_view(e)),
{
    assert(s.push(e).drop_last() =~= s);
}

pub proof fn lemma_named_view(s: Seq<(String, Expr)>)
    ensures
        named_view(s).len() == s.len(),
        forall|i: int|
            0 <= i < s.len() ==> #[trigger] named_view(s)[i] == (s[i].0@, expr_view(s[i].1)),
    decreases s.len(),
{
    if s.len() > 0 {
        lemma_named_view(s.drop_last());
    }
}

pub proof fn lemma_named_view_push(s: Seq<(String, Expr)>, p: (String, Expr))
    ensures
        named_view(s.push(p)) == named_view(s).push((p.0@, expr_view(p.1))),
{
    assert(s.push(p).drop_last() =~= s);
}

pub proof fn lemma_stmts_view(s: Seq<Stmt>)
    ensures
        stmts_view(s).len() == s.len(),
        forall|i: int| 0 <= i < s.len() ==> #[trigger] stmts_view(s)[i] == stmt_view(s[i]),
    decreases s.len(),
{
    if s.len() > 0 {
        lemma_stmts_view(s.drop_last());
    }
}

pub proof fn lemma_stmts_view_push(s: Seq<Stmt>, t: Stmt)
    ensures
        stmts_view(s.push(t)) == stmts_view(s).push(stmt_view(t)),
{
    assert(s.push(t).drop_last() =~= s);
}

// ── Copies ──────────────────────────────────────────────────────────────

pub fn copy_string(s: &String) -> (r: String)
    ensures
        r@ == s@,
{
    s.clone()
}

pub fn copy_strings(v: &Vec<String>) -> (r: Vec<String>)
    ensures
        strs_view(r@) == strs_view(v@),
        r@.len() == v@.len(),
{
    let mut r: Vec<String> = Vec::new();
    let mut i: usize = 0;
    while i < v.len()
        invariant
            i <= v.len(),
            r@.len() == i,
            forall|j: int| 0 <= j < i ==> #[trigger] r@[j]@ == v@[j]@,
        decreases v.len() - i,
    {
        r.push(v[i].clone());
        i = i + 1;
    }
    assert(strs_view(r@) =~= strs_view(v@));
    r
}

pub fn copy_type(t: &Type) -> (r: Type)
    ensures
        r@ == t@,
    decreases t,
{
    match t {
        Type::Int => Type::Int,
        Type::Int8 => Type::Int8,
        Type::Int16 => Type::Int16,
        Type::Int64 => Type::Int64,
        Type::Uint8 => Type::Uint8,
        Type::Uint16 => Type::Uint16,
        Type::Uint32 => Type::Uint32,
        Type::Uint64 => Type::Uint64,
        Type::Float => Type::Float,
        Type::Float32 => Type::Float32,
        Type::Bool => Type::Bool,
        Type::String => Type::String,
        Type::Array(b) => Type::Array(Box::new(copy_type(b))),
        Type::Slice(b) => Type::Slice(Box::new(copy_type(b))),
        Type::Tuple(v) => Type::Tuple(copy_types(v)),
        Type::Ptr => Type::Ptr,
        Type::Struct(s) => Type::Struct(s.clone()),
        Type::Enum(s) => Type::Enum(s.clone()),
        Type::Result(b) => Type::Result(Box::new(copy_type(b))),
        Type::Nullable(b) => Type::Nullable(Box::new(copy_type(b))),
        Type::Generic(s) => Type::Generic(s.clone()),
        Type::Fn(v, b) => Type::Fn(copy_types(v), Box::new(copy_type(b))),
        Type::Async(b) => Type::Async(Box::new(copy_type(b))),
        Type::Void => Type::Void,
    }
}

pub fn copy_types(v: &Vec<Type>) -> (r: Vec<Type>)
    ensures
        types_view(r@) == types_view(v@),
    decreases v,
{
    let mut r: Vec<Type> = Vec::new();
    let mut i: usize = 0;
    while i < v.len()
        invariant
            i <= v.len(),
            types_view(r@) == types_view(v@.take(i as int)),
        decreases v.len() - i,
    {
        let t = copy_type(&v[i]);
        proof {
            lemma_types_view_push(r@, t);
            lemma_types_view_push(v@.take(i as int), v@[i as int]);
            assert(v@.take(i as int).push(v@[i as int]) =~= v@.take(i + 1));
        }
        r.push(t);
        i = i + 1;
    }
    assert(v@.take(v.len() as int) =~= v@);
    r
}

pub fn copy_opt_type(t: &Option<Type>) -> (r: Option<Type>)
    ensures
        opt_type_view(r) == opt_type_view(*t),
{
    match t {
        Some(x) => Some(copy_type(x)),
        None => None,
    }
}


pub proof fn lemma_parts_view_push(s: Seq<StringPart>, p: StringPart)
    ensures
        parts_view(s.push(p)) == parts_view(s).push(match p {
            StringPart::Literal(l) => SpecStringPart::Literal(l@),
            StringPart::Interpolated(e) => SpecStringPart::Interpolated(expr_view(e)),
        }),
{
    assert(s.push(p).drop_last() =~= s);
}

pub proof fn lemma_arms_view_push(s: Seq<MatchArm>, a: MatchArm)
    ensures
        arms_view(s.push(a)) == arms_view(s).push(
            SpecMatchArm { pattern: pattern_view(a.pattern), body: block_view(a.body) },
        ),
{
    assert(s.push(a).drop_last() =~= s);
}

pub proof fn lemma_patterns_view_push(s: Seq<Pattern>, p: Pattern)
    ensures
        patterns_view(s.push(p)) == patterns_view(s).push(pattern_view(p)),
{
    assert(s.push(p).drop_last() =~= s);
}

pub proof fn lemma_named_elem_push(s: Seq<(String, Expr)>, p: (String, Expr))
    ensures
        named_view(s.push(p)) == named_view(s).push((p.0@, expr_view(p.1))),
{
    assert(s.push(p).drop_last() =~= s);
}

pub fn copy_opt_string(o: &Option<String>) -> (r: Option<String>)
    ensures
        opt_str_view(r) == opt_str_view(*o),
{
    match o {
        Some(x) => Some(x.clone()),
        None => None,
    }
}

pub fn copy_typed_names(v: &Vec<(String, Type)>) -> (r: Vec<(String, Type)>)
    ensures
        typed_names_view(r@) == typed_names_view(v@),
{
    let mut r: Vec<(String, Type)> = Vec::new();
    let mut i: usize = 0;
    while i < v.len()
        invariant
            i <= v.len(),
            r@.len() == i,
            forall|j: int| 0 <= j < i ==> #[trigger] r@[j].0@ == v@[j].0@ && type_view(r@[j].1) == type_view(v@[j].1),
        decreases v.len() - i,
    {
        r.push((v[i].0.clone(), copy_type(&v[i].1)));
        i = i + 1;
    }
    assert(typed_names_view(r@) =~= typed_names_view(v@));
    r
}

pub fn copy_closure_params(v: &Vec<(String, Option<Type>)>) -> (r: Vec<(String, Option<Type>)>)
    ensures
        closure_params_view(r@) == closure_params_view(v@),
{
    let mut r: Vec<(String, Option<Type>)> = Vec::new();
    let mut i: usize = 0;
    while i < v.len()
        invariant
            i <= v.len(),
            r@.len() == i,
            forall|j: int| 0 <= j < i ==> #[trigger] r@[j].0@ == v@[j].0@ && opt_type_view(r@[j].1) == opt_type_view(v@[j].1),
        decreases v.len() - i,
    {
        r.push((v[i].0.clone(), copy_opt_type(&v[i].1)));
        i = i + 1;
    }
    assert(closure_params_view(r@) =~= closure_params_view(v@));
    r
}

pub fn copy_constraints(v: &Vec<(String, Vec<String>)>) -> (r: Vec<(String, Vec<String>)>)
    ensures
        constraints_view(r@) == constraints_view(v@),
{
    let mut r: Vec<(String, Vec<String>)> = Vec::new();
    let mut i: usize = 0;
    while i < v.len()
        invariant
            i <= v.len(),
            r@.len() == i,
            forall|j: int| 0 <= j < i ==> #[trigger] r@[j].0@ == v@[j].0@ && strs_view(r@[j].1@) == strs_view(v@[j].1@),
        decreases v.len() - i,
    {
        r.push((v[i].0.clone(), copy_strings(&v[i].1)));
        i = i + 1;
    }
    assert(constraints_view(r@) =~= constraints_view(v@));
    r
}

pub fn copy_variants(v: &Vec<EnumVariant>) -> (r: Vec<EnumVariant>)
    ensures
        variants_view(r@) == variants_view(v@),
{
    let mut r: Vec<EnumVariant> = Vec::new();
    let mut i: usize = 0;
    while i < v.len()
        invariant
            i <= v.len(),
            r@.len() == i,
            forall|j: int| 0 <= j < i ==> #[trigger] variant_view(r@[j]) == variant_view(v@[j]),
        decreases v.len() - i,
    {
        r.push(EnumVariant { name: v[i].name.clone(), fields: copy_types(&v[i].fields) });
        i = i + 1;
    }
    assert(variants_view(r@) =~= variants_view(v@));
    r
}

pub fn copy_named_one(p: &(String, Expr)) -> (r: (String, Expr))
    ensures
        r.0@ == p.0@,
        expr_view(r.1) == expr_view(p.1),
    decreases p,
{
    (p.0.clone(), copy_expr(&p.1))
}

pub fn copy_part(p: &StringPart) -> (r: StringPart)
    ensures
        (match r {
            StringPart::Literal(l) => SpecStringPart::Literal(l@),
            StringPart::Interpolated(e) => SpecStringPart::Interpolated(expr_view(e)),
        }) == (match *p {
            StringPart::Literal(l) => SpecStringPart::Literal(l@),
            StringPart::Interpolated(e) => SpecStringPart::Interpolated(expr_view(e)),
        }),
    decreases p,
{
    match p {
        StringPart::Literal(l) => StringPart::Literal(l.clone()),
        StringPart::Interpolated(e) => StringPart::Interpolated(copy_expr(e)),
    }
}

pub fn copy_opt_expr(o: &Option<Expr>) -> (r: Option<Expr>)
    ensures
        opt_expr_view(r) == opt_expr_view(*o),
    decreases o,
{
    match o {
        Some(e) => Some(copy_expr(e)),
        None => None,
    }
}


/// A copy of an expression, equal to it in the model.
pub fn copy_expr(e: &Expr) -> (r: Expr)
    ensures
        r@ == e@,
    decreases e,
{
    match e {
        Expr::Integer(n) => Expr::Integer(*n),
        Expr::Float(s) => Expr::Float(s.clone()),
        Expr::Boolean(b) => Expr::Boolean(*b),
        Expr::StringLiteral(s) => Expr::StringLiteral(s.clone()),
        Expr::InterpolatedString(v) => Expr::InterpolatedString(copy_parts(v)),
        Expr::Null => Expr::Null,
        Expr::Tuple(v) => Expr::Tuple(copy_exprs(v)),
        Expr::Array(v) => Expr::Array(copy_exprs(v)),
        Expr::Identifier(s) => Expr::Identifier(s.clone()),
        Expr::NamespacedIdent { namespace, name } => Expr::NamespacedIdent { namespace: namespace.clone(), name: name.clone() },
        Expr::EnumVariant { enum_name, variant } => Expr::EnumVariant { enum_name: enum_name.clone(), variant: variant.clone() },
        Expr::FieldAccess { object, field } => Expr::FieldAccess { object: Box::new(copy_expr(object)), field: field.clone() },
        Expr::TupleIndex { tuple, index } => Expr::TupleIndex { tuple: Box::new(copy_expr(tuple)), index: *index },
        Expr::StructLiteral { name, fields } => Expr::StructLiteral { name: name.clone(), fields: copy_named(fields) },
        Expr::BinaryOp { left, op, right } => Expr::BinaryOp { left: Box::new(copy_expr(left)), op: *op, right: Box::new(copy_expr(right)) },
        Expr::UnaryOp { op, operand } => Expr::UnaryOp { op: *op, operand: Box::new(copy_expr(operand)) },
        Expr::Cast { expr, to } => Expr::Cast { expr: Box::new(copy_expr(expr)), to: copy_type(to) },
        Expr::StrLen(a) => Expr::StrLen(Box::new(copy_expr(a))),
        Expr::StrConcat(a, b) => Expr::StrConcat(Box::new(copy_expr(a)), Box::new(copy_expr(b))),
        Expr::StrSlice { s, start, end } => Expr::StrSlice { s: Box::new(copy_expr(s)), start: Box::new(copy_expr(start)), end: Box::new(copy_expr(end)) },
        Expr::StrContains { s, needle } => Expr::StrContains { s: Box::new(copy_expr(s)), needle: Box::new(copy_expr(needle)) },
        Expr::StrToInt(a) => Expr::StrToInt(Box::new(copy_expr(a))),
        Expr::IntToStr(a) => Expr::IntToStr(Box::new(copy_expr(a))),
        Expr::OkExpr(a) => Expr::OkExpr(Box::new(copy_expr(a))),
        Expr::ErrExpr(a) => Expr::ErrExpr(Box::new(copy_expr(a))),
        Expr::IsOk(a) => Expr::IsOk(Box::new(copy_expr(a))),
        Expr::Unwrap(a) => Expr::Unwrap(Box::new(copy_expr(a))),
        Expr::PropagateErr(a) => Expr::PropagateErr(Box::new(copy_expr(a))),
        Expr::Closure { params, body } => Expr::Closure { params: copy_closure_params(params), body: Box::new(copy_expr(body)) },
        Expr::Await(a) => Expr::Await(Box::new(copy_expr(a))),
        Expr::Comptime(a) => Expr::Comptime(Box::new(copy_expr(a))),
        Expr::Nullable(a) => Expr::Nullable(Box::new(copy_expr(a))),
        Expr::Range { start, end, inclusive } => Expr::Range { start: Box::new(copy_expr(start)), end: Box::new(copy_expr(end)), inclusive: *inclusive },
        Expr::Call { func, args, named } => Expr::Call { func: Box::new(copy_expr(func)), args: copy_exprs(args), named: copy_named(named) },
        Expr::Alloc { count, size } => Expr::Alloc { count: Box::new(copy_expr(count)), size: Box::new(copy_expr(size)) },
        Expr::Index { array, index } => Expr::Index { array: Box::new(copy_expr(array)), index: Box::new(copy_expr(index)) },
        Expr::Copy(a) => Expr::Copy(Box::new(copy_expr(a))),
        Expr::AddressOf(a) => Expr::AddressOf(Box::new(copy_expr(a))),
        Expr::Deref(a) => Expr::Deref(Box::new(copy_expr(a))),
        Expr::Min(a, b) => Expr::Min(Box::new(copy_expr(a)), Box::new(copy_expr(b))),
        Expr::Max(a, b) => Expr::Max(Box::new(copy_expr(a)), Box::new(copy_expr(b))),
        Expr::Abs(a) => Expr::Abs(Box::new(copy_expr(a))),
    }
}

pub fn copy_loop_kind(k: &LoopKind) -> (r: LoopKind)
    ensures
        loop_kind_view(r) == loop_kind_view(*k),
{
    match k {
        LoopKind::Infinite => LoopKind::Infinite,
        LoopKind::Times(e) => LoopKind::Times(copy_expr(e)),
        LoopKind::FromTo { var, from, to } => LoopKind::FromTo { var: var.clone(), from: copy_expr(from), to: copy_expr(to) },
        LoopKind::Range { var, range } => LoopKind::Range { var: var.clone(), range: copy_expr(range) },
        LoopKind::ForEach { var, iterable } => LoopKind::ForEach { var: var.clone(), iterable: copy_expr(iterable) },
        LoopKind::While(e) => LoopKind::While(copy_expr(e)),
    }
}

pub fn copy_pattern(p: &Pattern) -> (r: Pattern)
    ensures
        r@ == p@,
    decreases p,
{
    match p {
        Pattern::EnumVariant(s) => Pattern::EnumVariant(s.clone()),
        Pattern::EnumVariantCapture { variant, bindings } => Pattern::EnumVariantCapture { variant: variant.clone(), bindings: copy_strings(bindings) },
        Pattern::IntLiteral(n) => Pattern::IntLiteral(*n),
        Pattern::BoolLiteral(b) => Pattern::BoolLiteral(*b),
        Pattern::StringLiteral(s) => Pattern::StringLiteral(s.clone()),
        Pattern::Range(a, b) => Pattern::Range(*a, *b),
        Pattern::Tuple(v) => Pattern::Tuple(copy_patterns(v)),
        Pattern::Wildcard => Pattern::Wildcard,
    }
}

pub fn copy_arm(a: &MatchArm) -> (r: MatchArm)
    ensures
        pattern_view(r.pattern) == pattern_view(a.pattern),
        block_view(r.body) == block_view(a.body),
    decreases a,
{
    MatchArm { pattern: copy_pattern(&a.pattern), body: copy_block(&a.body) }
}

pub fn copy_block(b: &Block) -> (r: Block)
    ensures
        r@ == b@,
    decreases b,
{
    Block { statements: copy_stmts(&b.statements), tail_expr: copy_opt_expr(&b.tail_expr) }
}

pub fn copy_opt_block(o: &Option<Block>) -> (r: Option<Block>)
    ensures
        (match r {
            Some(b) => Some(block_view(b)),
            None => None,
        }) == (match *o {
            Some(b) => Some(block_view(b)),
            None => None,
        }),
    decreases o,
{
    match o {
        Some(b) => Some(copy_block(b)),
        None => None,
    }
}

/// A copy of a statement, equal to it in the model.
pub fn copy_stmt(s: &Stmt) -> (r: Stmt)
    ensures
        r@ == s@,
    decreases s,
{
    match s {
        Stmt::VarDecl { name, ty, value, sensitive } => Stmt::VarDecl { name: name.clone(), ty: copy_opt_type(ty), value: copy_expr(value), sensitive: *sensitive },
        Stmt::ConstDecl { name, value } => Stmt::ConstDecl { name: name.clone(), value: copy_expr(value) },
        Stmt::TypeAlias { name, ty } => Stmt::TypeAlias { name: name.clone(), ty: copy_type(ty) },
        Stmt::Assign { name, value } => Stmt::Assign { name: name.clone(), value: copy_expr(value) },
        Stmt::CompoundAssign { name, op, value } => Stmt::CompoundAssign { name: name.clone(), op: *op, value: copy_expr(value) },
        Stmt::MultiAssign { names, values } => Stmt::MultiAssign { names: copy_strings(names), values: copy_exprs(values) },
        Stmt::Destructure { fields, from_struct, value } => Stmt::Destructure { fields: copy_strings(fields), from_struct: copy_opt_string(from_struct), value: copy_expr(value) },
        Stmt::FieldAssign { object, field, value } => Stmt::FieldAssign { object: object.clone(), field: field.clone(), value: copy_expr(value) },
        Stmt::IndexAssign { array, index, value } => Stmt::IndexAssign { array: array.clone(), index: copy_expr(index), value: copy_expr(value) },
        Stmt::TaskDecl { name, type_params, constraints, params, return_type, body, is_inline, is_async } => Stmt::TaskDecl {
            name: name.clone(),
            type_params: copy_strings(type_params),
            constraints: copy_constraints(constraints),
            params: copy_typed_names(params),
            return_type: copy_type(return_type),
            body: copy_block(body),
            is_inline: *is_inline,
            is_async: *is_async,
        },
        Stmt::ExternDecl { name, params, return_type, variadic } => Stmt::ExternDecl { name: name.clone(), params: copy_types(params), return_type: copy_type(return_type), variadic: *variadic },
        Stmt::StructDecl { name, type_params, fields } => Stmt::StructDecl { name: name.clone(), type_params: copy_strings(type_params), fields: copy_typed_names(fields) },
        Stmt::EnumDecl { name, variants } => Stmt::EnumDecl { name: name.clone(), variants: copy_variants(variants) },
        Stmt::NamespaceDecl { name, body } => Stmt::NamespaceDecl { name: name.clone(), body: copy_stmts(body) },
        Stmt::UseDecl { path } => Stmt::UseDecl { path: copy_strings(path) },
        Stmt::TestDecl { name, body } => Stmt::TestDecl { name: name.clone(), body: copy_block(body) },
        Stmt::Check { condition, then_block, else_block } => Stmt::Check { condition: copy_expr(condition), then_block: copy_block(then_block), else_block: copy_opt_block(else_block) },
        Stmt::Loop { kind, body } => Stmt::Loop { kind: copy_loop_kind(kind), body: copy_block(body) },
        Stmt::Match { value, arms } => Stmt::Match { value: copy_expr(value), arms: copy_arms(arms) },
        Stmt::Override { body } => Stmt::Override { body: copy_block(body) },
        Stmt::ConstantTime { body } => Stmt::ConstantTime { body: copy_block(body) },
        Stmt::Spawn { var, body } => Stmt::Spawn { var: copy_opt_string(var), body: copy_block(body) },
        Stmt::Join { handle } => Stmt::Join { handle: copy_expr(handle) },
        Stmt::Defer { body } => Stmt::Defer { body: copy_block(body) },
        Stmt::Assert { condition, message } => Stmt::Assert { condition: copy_expr(condition), message: copy_opt_string(message) },
        Stmt::StaticAssert { condition, message } => Stmt::StaticAssert { condition: copy_expr(condition), message: copy_opt_string(message) },
        Stmt::Purge { variable } => Stmt::Purge { variable: variable.clone() },
        Stmt::Free { ptr } => Stmt::Free { ptr: copy_expr(ptr) },
        Stmt::Break => Stmt::Break,
        Stmt::Continue => Stmt::Continue,
        Stmt::Print(e) => Stmt::Print(copy_expr(e)),
        Stmt::PrintFmt { format, args } => Stmt::PrintFmt { format: format.clone(), args: copy_exprs(args) },
        Stmt::Return(e) => Stmt::Return(copy_opt_expr(e)),
        Stmt::Asm(t) => Stmt::Asm(t.clone()),
        Stmt::Import(t) => Stmt::Import(t.clone()),
        Stmt::ExprStmt(e) => Stmt::ExprStmt(copy_expr(e)),
    }
}

/// A copy of a program, equal to it in the model.
pub fn copy_program(p: &Program) -> (r: Program)
    ensures
        r@ == p@,
{
    Program { statements: copy_stmts(&p.statements) }
}

/// Copies of the expressions, in order.
pub fn copy_exprs(v: &Vec<Expr>) -> (r: Vec<Expr>)
    ensures
        exprs_view(r@) == exprs_view(v@),
    decreases v,
{
    let mut r: Vec<Expr> = Vec::new();
    let mut i: usize = 0;
    while i < v.len()
        invariant
            i <= v.len(),
            exprs_view(r@) == exprs_view(v@.take(i as int)),
        decreases v.len() - i,
    {
        let t = copy_expr(&v[i]);
        proof {
            lemma_exprs_view_push(r@, t);
            lemma_exprs_view_push(v@.take(i as int), v@[i as int]);
            assert(v@.take(i as int).push(v@[i as int]) =~= v@.take(i + 1));
        }
        r.push(t);
        i = i + 1;
    }
    assert(v@.take(v.len() as int) =~= v@);
    r
}

/// Copies of named expressions, in order.
pub fn copy_named(v: &Vec<(String, Expr)>) -> (r: Vec<(String, Expr)>)
    ensures
        named_view(r@) == named_view(v@),
    decreases v,
{
    let mut r: Vec<(String, Expr)> = Vec::new();
    let mut i: usize = 0;
    while i < v.len()
        invariant
            i <= v.len(),
            named_view(r@) == named_view(v@.take(i as int)),
        decreases v.len() - i,
    {
        let t = copy_named_one(&v[i]);
        proof {
            lemma_named_elem_push(r@, t);
            lemma_named_elem_push(v@.take(i as int), v@[i as int]);
            assert(v@.take(i as int).push(v@[i as int]) =~= v@.take(i + 1));
        }
        r.push(t);
        i = i + 1;
    }
    assert(v@.take(v.len() as int) =~= v@);
    r
}

/// Copies of the parts of an interpolated string.
pub fn copy_parts(v: &Vec<StringPart>) -> (r: Vec<StringPart>)
    ensures
        parts_view(r@) == parts_view(v@),
    decreases v,
{
    let mut r: Vec<StringPart> = Vec::new();
    let mut i: usize = 0;
    while i < v.len()
        invariant
            i <= v.len(),
            parts_view(r@) == parts_view(v@.take(i as int)),
        decreases v.len() - i,
    {
        let t = copy_part(&v[i]);
        proof {
            lemma_parts_view_push(r@, t);
            lemma_parts_view_push(v@.take(i as int), v@[i as int]);
            assert(v@.take(i as int).push(v@[i as int]) =~= v@.take(i + 1));
        }
        r.push(t);
        i = i + 1;
    }
    assert(v@.take(v.len() as int) =~= v@);
    r
}

/// Copies of the statements, in order.
pub fn copy_stmts(v: &Vec<Stmt>) -> (r: Vec<Stmt>)
    ensures
        stmts_view(r@) == stmts_view(v@),
    decreases v,
{
    let mut r: Vec<Stmt> = Vec::new();
    let mut i: usize = 0;
    while i < v.len()
        invariant
            i <= v.len(),
            stmts_view(r@) == stmts_view(v@.take(i as int)),
        decreases v.len() - i,
    {
        let t = copy_stmt(&v[i]);
        proof {
            lemma_stmts_view_push(r@, t);
            lemma_stmts_view_push(v@.take(i as int), v@[i as int]);
            assert(v@.take(i as int).push(v@[i as int]) =~= v@.take(i + 1));
        }
        r.push(t);
        i = i + 1;
    }
    assert(v@.take(v.len() as int) =~= v@);
    r
}

/// Copies of the arms of a match.
pub fn copy_arms(v: &Vec<MatchArm>) -> (r: Vec<MatchArm>)
    ensures
        arms_view(r@) == arms_view(v@),
    decreases v,
{
    let mut r: Vec<MatchArm> = Vec::new();
    let mut i: usize = 0;
    while i < v.len()
        invariant
            i <= v.len(),
            arms_view(r@) == arms_view(v@.take(i as int)),
        decreases v.len() - i,
    {
        let t = copy_arm(&v[i]);
        proof {
            lemma_arms_view_push(r@, t);
            lemma_arms_view_push(v@.take(i as int), v@[i as int]);
            assert(v@.take(i as int).push(v@[i as int]) =~= v@.take(i + 1));
        }
        r.push(t);
        i = i + 1;
    }
    assert(v@.take(v.len() as int) =~= v@);
    r
}

/// Copies of the patterns, in order.
pub fn copy_patterns(v: &Vec<Pattern>) -> (r: Vec<Pattern>)
    ensures
        patterns_view(r@) == patterns_view(v@),
    decreases v,
{
    let mut r: Vec<Pattern> = Vec::new();
    let mut i: usize = 0;
    while i < v.len()
        invariant
            i <= v.len(),
            patterns_view(r@) == patterns_view(v@.take(i as int)),
        decreases v.len() - i,
    {
        let t = copy_pattern(&v[i]);
        proof {
            lemma_patterns_view_push(r@, t);
            lemma_patterns_view_push(v@.take(i as int), v@[i as int]);
            assert(v@.take(i as int).push(v@[i as int]) =~= v@.take(i + 1));
        }
        r.push(t);
        i = i + 1;
    }
    assert(v@.take(v.len() as int) =~= v@);
    r
}

// ── Operations on types ─────────────────────────────────────────────────

/// The type `t` with every generic parameter named `param` replaced by
/// `concrete`, looking through arrays, slices, tuples, results, nullables
/// and async types (not through function types).
pub open spec fn spec_substitute(t: SpecType, param: Seq<char>, concrete: SpecType) -> SpecType
    decreases t,
{
    match t {
        SpecType::Generic(name) => if name == param {
            concrete
        } else {
            t
        },
        SpecType::Array(b) => SpecType::Array(Box::new(spec_substitute(*b, param, concrete))),
        SpecType::Slice(b) => SpecType::Slice(Box::new(spec_substitute(*b, param, concrete))),
        SpecType::Tuple(ts) => SpecType::Tuple(spec_substitute_all(ts, param, concrete)),
        SpecType::Result(b) => SpecType::Result(Box::new(spec_substitute(*b, param, concrete))),
        SpecType::Nullable(b) => SpecType::Nullable(Box::new(spec_substitute(*b, param, concrete))),
        SpecType::Async(b) => SpecType::Async(Box::new(spec_substitute(*b, param, concrete))),
        _ => t,
    }
}

pub open spec fn spec_substitute_all(ts: Seq<SpecType>, param: Seq<char>, concrete: SpecType) -> Seq<SpecType>
    decreases ts,
{
    if ts.len() == 0 {
        Seq::empty()
    } else {
        spec_substitute_all(ts.drop_last(), param, concrete).push(
            spec_substitute(ts.last(), param, concrete),
        )
    }
}

/// Width in bits that code generation gives an integer type (32 for any
/// type that is not a sized integer).
pub open spec fn spec_bit_width(t: SpecType) -> u32 {
    match t {
        SpecType::Int8 | SpecType::Uint8 => 8,
        SpecType::Int16 | SpecType::Uint16 => 16,
        SpecType::Int | SpecType::Uint32 => 32,
        SpecType::Int64 | SpecType::Uint64 => 64,
        _ => 32,
    }
}

pub open spec fn spec_is_signed(t: SpecType) -> bool {
    match t {
        SpecType::Int | SpecType::Int8 | SpecType::Int16 | SpecType::Int64 => true,
        _ => false,
    }
}

impl Type {
    pub fn substitute(&self, param: &str, concrete: &Type) -> (r: Type)
        ensures
            r@ == spec_substitute(self@, param@, concrete@),
        decreases self,
    {
        match self {
            Type::Generic(name) => {
                if crate::text::str_eq(name.as_str(), param) {
                    copy_type(concrete)
                } else {
                    Type::Generic(name.clone())
                }
            },
            Type::Array(inner) => Type::Array(Box::new(inner.substitute(param, concrete))),
            Type::Slice(inner) => Type::Slice(Box::new(inner.substitute(param, concrete))),
            Type::Tuple(types) => Type::Tuple(substitute_each(types, param, concrete)),
            Type::Result(inner) => Type::Result(Box::new(inner.substitute(param, concrete))),
            Type::Nullable(inner) => Type::Nullable(Box::new(inner.substitute(param, concrete))),
            Type::Async(inner) => Type::Async(Box::new(inner.substitute(param, concrete))),
            other => copy_type(other),
        }
    }

    pub fn bit_width(&self) -> (r: u32)
        ensures
            r == spec_bit_width(self@),
    {
        match self {
            Type::Int8 | Type::Uint8 => 8,
            Type::Int16 | Type::Uint16 => 16,
            Type::Int | Type::Uint32 => 32,
            Type::Int64 | Type::Uint64 => 64,
            _ => 32,
        }
    }

    pub fn is_signed(&self) -> (r: bool)
        ensures
            r == spec_is_signed(self@),
    {
        match self {
            Type::Int | Type::Int8 | Type::Int16 | Type::Int64 => true,
            _ => false,
        }
    }
}

fn substitute_each(v: &Vec<Type>, param: &str, concrete: &Type) -> (r: Vec<Type>)
    ensures
        types_view(r@) == spec_substitute_all(types_view(v@), param@, concrete@),
    decreases v,
{
    let mut r: Vec<Type> = Vec::new();
    let mut i: usize = 0;
    while i < v.len()
        invariant
            i <= v.len(),
            types_view(r@) == spec_substitute_all(types_view(v@.take(i as int)), param@, concrete@),
        decreases v.len() - i,
    {
        let t = v[i].substitute(param, concrete);
        proof {
            lemma_types_view_push(r@, t);
            lemma_types_view_push(v@.take(i as int), v@[i as int]);
            assert(v@.take(i as int).push(v@[i as int]) =~= v@.take(i + 1));
            let tv = types_view(v@.take(i + 1));
            assert(tv.drop_last() =~= types_view(v@.take(i as int)));
        }
        r.push(t);
        i = i + 1;
    }
    assert(v@.take(v.len() as int) =~= v@);
    r
}


/// Substituting a type parameter by itself changes no type, and the bound
/// parameter itself becomes the concrete type: a substitution is fixed by
/// its binding.
pub proof fn law_substitute_binding(t: SpecType, param: Seq<char>, concrete: SpecType)
    ensures
        spec_substitute(t, param, SpecType::Generic(param)) == t,
        spec_substitute(SpecType::Generic(param), param, concrete) == concrete,
    decreases t,
{
    match t {
        SpecType::Array(b) => law_substitute_binding(*b, param, concrete),
        SpecType::Slice(b) => law_substitute_binding(*b, param, concrete),
        SpecType::Result(b) => law_substitute_binding(*b, param, concrete),
        SpecType::Nullable(b) => law_substitute_binding(*b, param, concrete),
        SpecType::Async(b) => law_substitute_binding(*b, param, concrete),
        SpecType::Tuple(ts) => lemma_substitute_all_identity(ts, param),
        _ => {},
    }
}

proof fn lemma_substitute_all_identity(ts: Seq<SpecType>, param: Seq<char>)
    ensures
        spec_substitute_all(ts, param, SpecType::Generic(param)) == ts,
    decreases ts,
{
    if ts.len() > 0 {
        lemma_substitute_all_identity(ts.drop_last(), param);
        law_substitute_binding(ts.last(), param, SpecType::Generic(param));
        assert(ts.drop_last().push(ts.last()) =~= ts);
    }
}

/// Whether `Generic(param)` occurs in `t` where substitution looks.
pub open spec fn mentions_param(t: SpecType, param: Seq<char>) -> bool
    decreases t,
{
    match t {
        SpecType::Generic(name) => name == param,
        SpecType::Array(b) => mentions_param(*b, param),
        SpecType::Slice(b) => mentions_param(*b, param),
        SpecType::Tuple(ts) => mentions_param_any(ts, param),
        SpecType::Result(b) => mentions_param(*b, param),
        SpecType::Nullable(b) => mentions_param(*b, param),
        SpecType::Async(b) => mentions_param(*b, param),
        _ => false,
    }
}

pub open spec fn mentions_param_any(ts: Seq<SpecType>, param: Seq<char>) -> bool
    decreases ts,
{
    if ts.len() == 0 {
        false
    } else {
        mentions_param_any(ts.drop_last(), param) || mentions_param(ts.last(), param)
    }
}

/// Substituting a parameter that does not occur changes nothing.
pub proof fn law_substitute_absent(t: SpecType, param: Seq<char>, concrete: SpecType)
    requires
        !mentions_param(t, param),
    ensures
        spec_substitute(t, param, concrete) == t,
    decreases t,
{
    match t {
        SpecType::Array(b) => law_substitute_absent(*b, param, concrete),
        SpecType::Slice(b) => law_substitute_absent(*b, param, concrete),
        SpecType::Result(b) => law_substitute_absent(*b, param, concrete),
        SpecType::Nullable(b) => law_substitute_absent(*b, param, concrete),
        SpecType::Async(b) => law_substitute_absent(*b, param, concrete),
        SpecType::Tuple(ts) => lemma_substitute_all_absent(ts, param, concrete),
        _ => {},
    }
}

proof fn lemma_substitute_all_absent(ts: Seq<SpecType>, param: Seq<char>, concrete: SpecType)
    requires
        !mentions_param_any(ts, param),
    ensures
        spec_substitute_all(ts, param, concrete) == ts,
    decreases ts,
{
    if ts.len() > 0 {
        lemma_substitute_all_absent(ts.drop_last(), param, concrete);
        law_substitute_absent(ts.last(), param, concrete);
        assert(ts.drop_last().push(ts.last()) =~= ts);
    }
}

/// Substituting twice is substituting once, when the concrete type does
/// not itself hold the parameter.
pub proof fn law_substitute_idempotent(t: SpecType, param: Seq<char>, concrete: SpecType)
    requires
        !mentions_param(concrete, param),
    ensures
        spec_substitute(spec_substitute(t, param, concrete), param, concrete) == spec_substitute(t, param, concrete),
    decreases t,
{
    match t {
        SpecType::Generic(name) => {
            if name == param {
                law_substitute_absent(concrete, param, concrete);
            }
        },
        SpecType::Array(b) => law_substitute_idempotent(*b, param, concrete),
        SpecType::Slice(b) => law_substitute_idempotent(*b, param, concrete),
        SpecType::Result(b) => law_substitute_idempotent(*b, param, concrete),
        SpecType::Nullable(b) => law_substitute_idempotent(*b, param, concrete),
        SpecType::Async(b) => law_substitute_idempotent(*b, param, concrete),
        SpecType::Tuple(ts) => lemma_substitute_all_idempotent(ts, param, concrete),
        _ => {},
    }
}

proof fn lemma_substitute_all_idempotent(ts: Seq<SpecType>, param: Seq<char>, concrete: SpecType)
    requires
        !mentions_param(concrete, param),
    ensures
        spec_substitute_all(spec_substitute_all(ts, param, concrete), param, concrete) == spec_substitute_all(ts, param, concrete),
    decreases ts,
{
    if ts.len() > 0 {
        lemma_substitute_all_idempotent(ts.drop_last(), param, concrete);
        law_substitute_idempotent(ts.last(), param, concrete);
        let once = spec_substitute_all(ts, param, concrete);
        assert(once.drop_last() == spec_substitute_all(ts.drop_last(), param, concrete));
        assert(once.last() == spec_substitute(ts.last(), param, concrete));
    }
}

} // verus!
