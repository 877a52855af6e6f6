//! Semantic analysis: scopes and declarations, moves and purges of
//! variables, type checks of expressions, and the rules on privileged
//! operations (`&`, `*` and `asm` only inside `override`).
//!
//! Variables live in one list of entries; a scope is the stretch of the
//! list from where it was opened. A name is bound by its latest entry.
use vstd::prelude::*;
use crate::ast::{
    Type, Expr, Stmt, Block, Program, LoopKind, Pattern, BinOp, UnaryOp, EnumVariant, SpecType, SpecExpr,
    SpecStmt, type_view, types_view, lemma_types_view, copy_type, copy_types, copy_typed_names, copy_variants, copy_stmts,
    copy_opt_type, exprs_view, lemma_exprs_view_push, stmts_view, lemma_stmts_view_push,
};
use crate::generics::type_eq;
use crate::text::{str_eq, concat2, concat3, concat5};

verus! {

/// Whether a variable can still be read.
#[derive(Clone, Copy, PartialEq, Eq, Structural, Debug)]
pub enum VarState {
    Live,
    Moved,
    Purged,
}

struct VarInfo {
    var_type: Type,
    state: VarState,
    is_const: bool,
    sensitive: bool,
    used: bool,
    assigned: bool,
}

/// The model of one variable.
pub struct SemVar {
    pub ty: SpecType,
    pub state: VarState,
    pub is_const: bool,
    pub used: bool,
}

/// The model of the analyzer: what it reported, the variables in scope
/// (`starts` holds where each open scope begins in `vars`), how deep
/// inside loops and `override` blocks it is, and whether it is inside a
/// task or test (where `return` values are checked).
#[verifier::ext_equal]
pub struct SemState {
    pub errors: Seq<Seq<char>>,
    pub warnings: Seq<Seq<char>>,
    pub vars: Seq<(Seq<char>, SemVar)>,
    pub starts: Seq<int>,
    pub override_depth: int,
    pub loop_depth: int,
    pub in_task: bool,
}

// ── Messages ────────────────────────────────────────────────────────────

pub open spec fn moved_msg(n: Seq<char>) -> Seq<char> {
    "'"@ + n + "' was moved"@
}

pub open spec fn purged_msg(n: Seq<char>) -> Seq<char> {
    "'"@ + n + "' was purged"@
}

pub open spec fn undefined_msg(n: Seq<char>) -> Seq<char> {
    "'"@ + n + "' is not defined"@
}

pub open spec fn redeclared_msg(n: Seq<char>) -> Seq<char> {
    "'"@ + n + "' already declared in this scope"@
}

pub open spec fn unused_msg(n: Seq<char>) -> Seq<char> {
    "unused variable '"@ + n + "'"@
}

pub open spec fn purge_const_msg(n: Seq<char>) -> Seq<char> {
    "Cannot purge const '"@ + n + "'"@
}

pub open spec fn outside_loop_msg() -> Seq<char> {
    "'break'/'continue' outside loop"@
}

pub open spec fn asm_msg() -> Seq<char> {
    "'asm' only inside 'override'"@
}

// ── The model's operations ──────────────────────────────────────────────

/// `b` holds every message of `a`, in the same places.
pub open spec fn seq_extends(a: Seq<Seq<char>>, b: Seq<Seq<char>>) -> bool {
    a.len() <= b.len() && forall|i: int| 0 <= i < a.len() ==> #[trigger] a[i] == b[i]
}

pub open spec fn wf(m: SemState) -> bool {
    &&& m.starts.len() >= 1
    &&& forall|i: int| 0 <= i < m.starts.len() ==> 0 <= #[trigger] m.starts[i] <= m.vars.len()
    &&& forall|i: int, j: int| 0 <= i <= j < m.starts.len() ==> #[trigger] m.starts[i] <= #[trigger] m.starts[j]
    &&& m.override_depth >= 0
    &&& m.loop_depth >= 0
}

/// What every analysis step keeps: messages are only added, and the open
/// scopes and depths are as they were.
pub open spec fn extends(a: SemState, b: SemState) -> bool {
    &&& seq_extends(a.errors, b.errors)
    &&& seq_extends(a.warnings, b.warnings)
    &&& b.starts =~= a.starts
    &&& b.override_depth == a.override_depth
    &&& b.loop_depth == a.loop_depth
    &&& b.vars.len() >= a.vars.len()
    &&& wf(b)
}

/// Where the binding of `name` is: its latest entry, or -1.
pub open spec fn binding(vars: Seq<(Seq<char>, SemVar)>, name: Seq<char>) -> int
    decreases vars.len(),
{
    if vars.len() == 0 {
        -1
    } else if vars.last().0 == name {
        vars.len() - 1
    } else {
        binding(vars.drop_last(), name)
    }
}

pub open spec fn in_top_scope(m: SemState, name: Seq<char>) -> bool {
    exists|i: int| m.starts.last() <= i < m.vars.len() && #[trigger] m.vars[i].0 == name
}

pub open spec fn add_error(m: SemState, msg: Seq<char>) -> SemState {
    SemState { errors: m.errors.push(msg), ..m }
}

pub open spec fn add_warning(m: SemState, msg: Seq<char>) -> SemState {
    SemState { warnings: m.warnings.push(msg), ..m }
}

/// Declaring a variable: an error if the innermost scope has the name.
pub open spec fn declare(m: SemState, name: Seq<char>, ty: SpecType, is_const: bool) -> SemState {
    if in_top_scope(m, name) {
        add_error(m, redeclared_msg(name))
    } else {
        SemState {
            vars: m.vars.push((name, SemVar { ty, state: VarState::Live, is_const, used: false })),
            ..m
        }
    }
}

pub open spec fn mark_used(m: SemState, name: Seq<char>) -> SemState {
    let i = binding(m.vars, name);
    if i < 0 {
        m
    } else {
        SemState { vars: m.vars.update(i, (name, SemVar { used: true, ..m.vars[i].1 })), ..m }
    }
}

pub open spec fn set_var_state(m: SemState, name: Seq<char>, s: VarState) -> SemState {
    let i = binding(m.vars, name);
    if i < 0 {
        m
    } else {
        SemState { vars: m.vars.update(i, (name, SemVar { state: s, ..m.vars[i].1 })), ..m }
    }
}

/// Reading a variable: marks it used; reports it if it is undefined, moved
/// or purged; gives its type if it can be read.
pub open spec fn usable(m: SemState, name: Seq<char>) -> (SemState, Option<SpecType>) {
    let m1 = mark_used(m, name);
    let i = binding(m1.vars, name);
    if i < 0 {
        (add_error(m1, undefined_msg(name)), None)
    } else {
        match m1.vars[i].1.state {
            VarState::Live => (m1, Some(m1.vars[i].1.ty)),
            VarState::Moved => (add_error(m1, moved_msg(name)), None),
            VarState::Purged => (add_error(m1, purged_msg(name)), None),
        }
    }
}

pub open spec fn unused_warnings(vars: Seq<(Seq<char>, SemVar)>, start: int, n: int) -> Seq<Seq<char>>
    decreases n - start,
{
    if n <= start {
        Seq::empty()
    } else {
        let rest = unused_warnings(vars, start, n - 1);
        let v = vars[n - 1].1;
        if !v.used && v.state == VarState::Live && !v.is_const {
            rest.push(unused_msg(vars[n - 1].0))
        } else {
            rest
        }
    }
}

pub open spec fn push_scope(m: SemState) -> SemState {
    SemState { starts: m.starts.push(m.vars.len() as int), ..m }
}

/// Leaving a scope warns of each of its variables never read.
pub open spec fn pop_scope(m: SemState) -> SemState {
    let s = m.starts.last();
    SemState {
        warnings: m.warnings + unused_warnings(m.vars, s, m.vars.len() as int),
        vars: m.vars.take(s),
        starts: m.starts.drop_last(),
        ..m
    }
}

/// `purge name`.
pub open spec fn purge_step(m: SemState, name: Seq<char>) -> SemState {
    let i = binding(m.vars, name);
    if i >= 0 && m.vars[i].1.is_const {
        add_error(m, purge_const_msg(name))
    } else {
        let (m1, t) = usable(m, name);
        if t is Some {
            set_var_state(m1, name, VarState::Purged)
        } else {
            m1
        }
    }
}

/// `break` or `continue`.
pub open spec fn jump_step(m: SemState) -> SemState {
    if m.loop_depth == 0 {
        add_error(m, outside_loop_msg())
    } else {
        m
    }
}

/// `asm(...)`.
pub open spec fn asm_step(m: SemState) -> SemState {
    if m.override_depth == 0 {
        add_error(m, asm_msg())
    } else {
        m
    }
}

// ── The analyzer ────────────────────────────────────────────────────────

pub struct Analyzer {
    vars: Vec<(String, VarInfo)>,
    starts: Vec<usize>,
    errors: Vec<String>,
    warnings: Vec<String>,
    task_returns: Vec<(String, Type)>,
    task_param_types: Vec<(String, Vec<Type>)>,
    struct_fields: Vec<(String, Vec<(String, Type)>)>,
    enum_variants: Vec<(String, Vec<EnumVariant>)>,
    namespaces: Vec<(String, Vec<Stmt>)>,
    type_aliases: Vec<(String, Type)>,
    current_ret_type: Option<Type>,
    override_depth: usize,
    constant_time_depth: usize,
    loop_depth: usize,
    sensitive_names: Vec<String>,
    network_fns: Vec<String>,
    current_task_name: Option<String>,
}

/// The model of an optional type.
pub open spec fn opt_type_view(t: Option<Type>) -> Option<SpecType> {
    match t {
        Some(t) => Some(t@),
        None => None,
    }
}

/// The type of an expression whose type its form alone decides: literals,
/// interpolated strings, ranges, enum variants and error values. Reading
/// one reports nothing.
pub open spec fn literal_type(e: SpecExpr) -> Option<SpecType> {
    match e {
        SpecExpr::Integer(_) => Some(SpecType::Int),
        SpecExpr::Float(_) => Some(SpecType::Float),
        SpecExpr::Boolean(_) => Some(SpecType::Bool),
        SpecExpr::StringLiteral(_) => Some(SpecType::String),
        SpecExpr::Null => Some(SpecType::Ptr),
        SpecExpr::InterpolatedString(_) => Some(SpecType::String),
        SpecExpr::Range { .. } => Some(SpecType::Array(Box::new(SpecType::Int))),
        SpecExpr::EnumVariant { .. } => Some(SpecType::Int),
        SpecExpr::ErrExpr(_) => Some(SpecType::Result(Box::new(SpecType::Int))),
        _ => None,
    }
}

/// The state after reading an expression, as `infer_spec` gives it.
pub open spec fn read_step(m: SemState, e: SpecExpr) -> Option<SemState> {
    match infer_spec(m, e) {
        Some((m1, _)) => Some(m1),
        None => None,
    }
}

pub open spec fn assign_const_msg(n: Seq<char>) -> Seq<char> {
    "Cannot assign to const '"@ + n + "'"@
}

pub open spec fn assign_undefined_msg(n: Seq<char>) -> Seq<char> {
    "'"@ + n + "' not defined. Use 'set'."@
}

pub open spec fn compound_undefined_msg(n: Seq<char>) -> Seq<char> {
    "'"@ + n + "' not defined"@
}

/// An assignment `name = value`: an error for an undeclared name or a
/// constant (and the value is not read); otherwise a moved or purged
/// variable is reported, then the value is read.
pub open spec fn assign_step(m: SemState, name: Seq<char>, value: SpecExpr) -> Option<SemState> {
    let i = binding(m.vars, name);
    if i < 0 {
        Some(add_error(m, assign_undefined_msg(name)))
    } else if m.vars[i].1.is_const {
        Some(add_error(m, assign_const_msg(name)))
    } else {
        let st = m.vars[i].1.state;
        let m1 = if st == VarState::Moved { add_error(m, moved_msg(name)) } else { m };
        let m2 = if st == VarState::Purged { add_error(m1, purged_msg(name)) } else { m1 };
        read_step(m2, value)
    }
}

/// A compound assignment `name op= value`: an error for an undeclared
/// name, then the value is read.
pub open spec fn compound_step(m: SemState, name: Seq<char>, value: SpecExpr) -> Option<SemState> {
    let m1 = if binding(m.vars, name) < 0 { add_error(m, compound_undefined_msg(name)) } else { m };
    read_step(m1, value)
}

/// The type of an expression whose type its form decides whatever its
/// parts are: string operations, checks, allocation, casts, addresses and
/// dereferences, and the forms of `literal_type`.
pub open spec fn fixed_type(e: SpecExpr) -> Option<SpecType> {
    match e {
        SpecExpr::StrLen(_) => Some(SpecType::Int),
        SpecExpr::StrConcat(_, _) => Some(SpecType::String),
        SpecExpr::StrSlice { .. } => Some(SpecType::String),
        SpecExpr::StrContains { .. } => Some(SpecType::Bool),
        SpecExpr::StrToInt(_) => Some(SpecType::Int),
        SpecExpr::IntToStr(_) => Some(SpecType::String),
        SpecExpr::IsOk(_) => Some(SpecType::Bool),
        SpecExpr::Alloc { .. } => Some(SpecType::Ptr),
        SpecExpr::Cast { to, .. } => Some(to),
        SpecExpr::Nullable(_) => Some(SpecType::Bool),
        SpecExpr::AddressOf(_) => Some(SpecType::Ptr),
        SpecExpr::Deref(_) => Some(SpecType::Int),
        _ => literal_type(e),
    }
}

// ── Reading an expression ───────────────────────────────────────────────

pub open spec fn needs_bool_msg(op: BinOp, t: SpecType) -> Seq<char> {
    "'"@ + binop_debug(op) + "' needs bool, got "@ + debug_of(t)
}

pub open spec fn compare_msg(l: SpecType, r: SpecType) -> Seq<char> {
    "Cannot compare "@ + debug_of(l) + " with "@ + debug_of(r)
}

pub open spec fn mismatch_msg(l: SpecType, r: SpecType) -> Seq<char> {
    "Type mismatch: "@ + debug_of(l) + " vs "@ + debug_of(r)
}

pub open spec fn tuple_index_msg() -> Seq<char> {
    "Tuple index on non-tuple type"@
}

pub open spec fn unwrap_msg() -> Seq<char> {
    "unwrap requires Result type"@
}

pub open spec fn address_msg() -> Seq<char> {
    "'&' only inside 'override'"@
}

pub open spec fn deref_msg() -> Seq<char> {
    "'*' only inside 'override'"@
}

/// A binary operator applied to operands of types `lt` and `rt`: the
/// logical operators want `Bool`s, comparisons and arithmetic want equal
/// types (`Int` and `Float` mix into `Float`).
pub open spec fn binary_result(m: SemState, op: BinOp, lt: Option<SpecType>, rt: Option<SpecType>) -> (SemState, Option<SpecType>) {
    match (lt, rt) {
        (Some(l), Some(r)) => match op {
            BinOp::And | BinOp::Or => {
                let m1 = if l != SpecType::Bool { add_error(m, needs_bool_msg(op, l)) } else { m };
                let m2 = if r != SpecType::Bool { add_error(m1, needs_bool_msg(op, r)) } else { m1 };
                (m2, Some(SpecType::Bool))
            },
            BinOp::Eq | BinOp::Neq => (m, Some(SpecType::Bool)),
            BinOp::Lt | BinOp::Gt | BinOp::Le | BinOp::Ge => (
                if l != r { add_error(m, compare_msg(l, r)) } else { m },
                Some(SpecType::Bool),
            ),
            BinOp::BitAnd | BinOp::BitOr | BinOp::BitXor | BinOp::Shl | BinOp::Shr => (m, Some(SpecType::Int)),
            _ => if l == r {
                (m, Some(l))
            } else if (l == SpecType::Int || l == SpecType::Float) && (r == SpecType::Int || r == SpecType::Float) {
                (m, Some(SpecType::Float))
            } else {
                (add_error(m, mismatch_msg(l, r)), None)
            },
        },
        _ => (m, None),
    }
}

/// `min`/`max`: `Int` of two `Int`s, `Float` of two `Float`s, else `Int`.
pub open spec fn min_max_type(a: Option<SpecType>, b: Option<SpecType>) -> SpecType {
    if a == Some(SpecType::Float) && b == Some(SpecType::Float) {
        SpecType::Float
    } else {
        SpecType::Int
    }
}

/// The outcome `r` with its type replaced by `t`.
pub open spec fn with_type(r: Option<(SemState, Option<SpecType>)>, t: SpecType) -> Option<(SemState, Option<SpecType>)> {
    match r {
        Some((m, _)) => Some((m, Some(t))),
        None => None,
    }
}

/// The types that were found, in order.
pub open spec fn somes(ts: Seq<Option<SpecType>>) -> Seq<SpecType>
    decreases ts.len(),
{
    if ts.len() == 0 {
        Seq::empty()
    } else {
        match ts.last() {
            Some(t) => somes(ts.drop_last()).push(t),
            None => somes(ts.drop_last()),
        }
    }
}

/// The first type that was found.
pub open spec fn first_some(ts: Seq<Option<SpecType>>) -> Option<SpecType>
    decreases ts.len(),
{
    if ts.len() == 0 {
        None
    } else if ts[0] is Some {
        ts[0]
    } else {
        first_some(ts.drop_first())
    }
}

/// A closure parameter's type: `Int` where none is written.
pub open spec fn param_type(t: Option<SpecType>) -> SpecType {
    match t {
        Some(t) => t,
        None => SpecType::Int,
    }
}

pub open spec fn param_types(ps: Seq<(Seq<char>, Option<SpecType>)>) -> Seq<SpecType>
    decreases ps.len(),
{
    if ps.len() == 0 {
        Seq::empty()
    } else {
        param_types(ps.drop_last()).push(param_type(ps.last().1))
    }
}

pub open spec fn declare_params(m: SemState, ps: Seq<(Seq<char>, Option<SpecType>)>) -> SemState
    decreases ps.len(),
{
    if ps.len() == 0 {
        m
    } else {
        declare(declare_params(m, ps.drop_last()), ps.last().0, param_type(ps.last().1), false)
    }
}

/// Reading `e` in state `m`: the state after it and the type found. The
/// checks of struct literals, field accesses and calls depend on the
/// declarations of structs and tasks, which this model leaves out: for an
/// expression holding one of them the result is `None`.
pub open spec fn infer_spec(m: SemState, e: SpecExpr) -> Option<(SemState, Option<SpecType>)>
    decreases e,
{
    match e {
        SpecExpr::Identifier(n) => Some(usable(m, n)),
        SpecExpr::NamespacedIdent { namespace, name } => Some(usable(m, namespace + "::"@ + name)),
        SpecExpr::Tuple(es) => match infer_seq(m, es) {
            Some((m1, ts)) => Some((m1, Some(SpecType::Tuple(somes(ts))))),
            None => None,
        },
        SpecExpr::Array(es) => match infer_seq(m, es) {
            Some((m1, ts)) => Some((m1, Some(SpecType::Array(Box::new(param_type(first_some(ts))))))),
            None => None,
        },
        SpecExpr::TupleIndex { tuple, index } => match infer_spec(m, *tuple) {
            Some((m1, Some(SpecType::Tuple(ts)))) => Some((m1, if index < ts.len() { Some(ts[index as int]) } else { None })),
            Some((m1, _)) => Some((add_error(m1, tuple_index_msg()), None)),
            None => None,
        },
        SpecExpr::Min(a, b) => match infer_spec(m, *a) {
            Some((m1, ta)) => match infer_spec(m1, *b) {
                Some((m2, tb)) => Some((m2, Some(min_max_type(ta, tb)))),
                None => None,
            },
            None => None,
        },
        SpecExpr::Max(a, b) => match infer_spec(m, *a) {
            Some((m1, ta)) => match infer_spec(m1, *b) {
                Some((m2, tb)) => Some((m2, Some(min_max_type(ta, tb)))),
                None => None,
            },
            None => None,
        },
        SpecExpr::Abs(i) => infer_spec(m, *i),
        SpecExpr::Comptime(i) => infer_spec(m, *i),
        SpecExpr::Await(i) => infer_spec(m, *i),
        SpecExpr::Copy(i) => infer_spec(m, *i),
        SpecExpr::PropagateErr(i) => match infer_spec(m, *i) {
            Some((m1, Some(SpecType::Result(t)))) => Some((m1, Some(*t))),
            Some((m1, _)) => infer_spec(m1, *i),
            None => None,
        },
        SpecExpr::StrLen(a) => with_type(infer_spec(m, *a), SpecType::Int),
        SpecExpr::StrToInt(a) => with_type(infer_spec(m, *a), SpecType::Int),
        SpecExpr::IntToStr(a) => with_type(infer_spec(m, *a), SpecType::String),
        SpecExpr::StrConcat(a, b) => match infer_spec(m, *a) {
            Some((m1, _)) => with_type(infer_spec(m1, *b), SpecType::String),
            None => None,
        },
        SpecExpr::StrSlice { s, start, end } => match infer_spec(m, *s) {
            Some((m1, _)) => match infer_spec(m1, *start) {
                Some((m2, _)) => with_type(infer_spec(m2, *end), SpecType::String),
                None => None,
            },
            None => None,
        },
        SpecExpr::StrContains { s, needle } => match infer_spec(m, *s) {
            Some((m1, _)) => with_type(infer_spec(m1, *needle), SpecType::Bool),
            None => None,
        },
        SpecExpr::OkExpr(a) => match infer_spec(m, *a) {
            Some((m1, Some(t))) => Some((m1, Some(SpecType::Result(Box::new(t))))),
            Some((m1, None)) => Some((m1, None)),
            None => None,
        },
        SpecExpr::IsOk(a) => with_type(infer_spec(m, *a), SpecType::Bool),
        SpecExpr::Nullable(a) => with_type(infer_spec(m, *a), SpecType::Bool),
        SpecExpr::Unwrap(a) => match infer_spec(m, *a) {
            Some((m1, Some(SpecType::Result(t)))) => Some((m1, Some(*t))),
            Some((m1, _)) => Some((add_error(m1, unwrap_msg()), None)),
            None => None,
        },
        SpecExpr::Alloc { count, size } => match infer_spec(m, *count) {
            Some((m1, _)) => with_type(infer_spec(m1, *size), SpecType::Ptr),
            None => None,
        },
        SpecExpr::Cast { expr, to } => with_type(infer_spec(m, *expr), to),
        SpecExpr::BinaryOp { left, op, right } => match infer_spec(m, *left) {
            Some((m1, lt)) => match infer_spec(m1, *right) {
                Some((m2, rt)) => Some(binary_result(m2, op, lt, rt)),
                None => None,
            },
            None => None,
        },
        SpecExpr::UnaryOp { op, operand } => match infer_spec(m, *operand) {
            Some((m1, t)) => Some((m1, match op {
                UnaryOp::Neg => t,
                UnaryOp::Not => Some(SpecType::Bool),
                UnaryOp::BitNot => Some(SpecType::Int),
            })),
            None => None,
        },
        SpecExpr::Closure { params, body } => match infer_spec(declare_params(push_scope(m), params), *body) {
            Some((m1, rt)) => Some((pop_scope(m1), Some(SpecType::Fn(
                param_types(params),
                Box::new(match rt {
                    Some(t) => t,
                    None => SpecType::Void,
                }),
            )))),
            None => None,
        },
        SpecExpr::Index { array, index } => match infer_spec(m, *array) {
            Some((m1, at)) => with_type(infer_spec(m1, *index), match at {
                Some(SpecType::Array(t)) => *t,
                Some(SpecType::Slice(t)) => *t,
                _ => SpecType::Int,
            }),
            None => None,
        },
        SpecExpr::AddressOf(a) => with_type(
            infer_spec(if m.override_depth == 0 { add_error(m, address_msg()) } else { m }, *a),
            SpecType::Ptr,
        ),
        SpecExpr::Deref(a) => with_type(
            infer_spec(if m.override_depth == 0 { add_error(m, deref_msg()) } else { m }, *a),
            SpecType::Int,
        ),
        SpecExpr::StructLiteral { .. } => None,
        SpecExpr::FieldAccess { .. } => None,
        SpecExpr::Call { .. } => None,
        _ => Some((m, literal_type(e))),
    }
}

/// What reading `e` from state `a` promises about the state `b` after it
/// and the type `t` found: messages are only added, the scopes are as they
/// were, and the outcome is that of `infer_spec` where it is defined (a
/// variable is read as `usable` says, a literal changes nothing, and the
/// forms of `fixed_type` have their type whatever their parts are).
pub open spec fn inferred(a: SemState, b: SemState, e: SpecExpr, t: Option<SpecType>) -> bool {
    &&& extends(a, b)
    &&& b.vars.len() == a.vars.len()
    &&& (match e {
        SpecExpr::Identifier(n) => (b, t) == usable(a, n),
        _ => literal_type(e) matches Some(lt) ==> b == a && t == Some(lt),
    })
    &&& (fixed_type(e) matches Some(ft) ==> t == Some(ft))
    &&& (infer_spec(a, e) matches Some((m, it)) ==> b == m && t == it)
}

/// Reading a list of expressions in order: the state after them and the
/// type found for each.
pub open spec fn infer_seq(m: SemState, es: Seq<SpecExpr>) -> Option<(SemState, Seq<Option<SpecType>>)>
    decreases es,
{
    if es.len() == 0 {
        Some((m, Seq::empty()))
    } else {
        match infer_seq(m, es.drop_last()) {
            Some((m1, ts)) => match infer_spec(m1, es.last()) {
                Some((m2, t)) => Some((m2, ts.push(t))),
                None => None,
            },
            None => None,
        }
    }
}

// ── Checking statements ─────────────────────────────────────────────────

pub open spec fn not_struct_msg(n: Seq<char>) -> Seq<char> {
    "'"@ + n + "' is not a struct"@
}

/// A depth one level further in (it stays put at the machine's limit).
pub open spec fn deeper(d: int) -> int {
    if d < usize::MAX {
        d + 1
    } else {
        d
    }
}

/// The types whose values are copied, not moved, by `set x = y`.
pub open spec fn copyable(t: SpecType) -> bool {
    t == SpecType::Int || t == SpecType::Float || t == SpecType::Bool || t == SpecType::Int8
        || t == SpecType::Int16 || t == SpecType::Int64
}

/// The element type of a loop over a value of type `t`.
pub open spec fn elem_type(t: Option<SpecType>) -> SpecType {
    match t {
        Some(SpecType::Array(e)) => *e,
        Some(SpecType::Slice(e)) => *e,
        _ => SpecType::Int,
    }
}

/// `set name[: ty] = value`: the value is read; the variable gets the
/// written type, else the value's, else `Int`; a variable read whole
/// whose type is not copyable is moved.
pub open spec fn var_decl_step(m: SemState, name: Seq<char>, ty: Option<SpecType>, value: SpecExpr) -> Option<SemState> {
    match infer_spec(m, value) {
        Some((m1, it)) => {
            let t = match ty {
                Some(t) => t,
                None => param_type(it),
            };
            let m2 = match value {
                SpecExpr::Identifier(moved) => if copyable(t) { m1 } else { set_var_state(m1, moved, VarState::Moved) },
                _ => m1,
            };
            Some(declare(m2, name, t, false))
        },
        None => None,
    }
}

/// `names = values`, pair by pair: each value is read, and a name not yet
/// bound is declared with the value's type (`Int` where it has none).
pub open spec fn multi_assign_step(m: SemState, names: Seq<Seq<char>>, values: Seq<SpecExpr>, k: int) -> Option<SemState>
    decreases k,
{
    if k <= 0 {
        Some(m)
    } else {
        match multi_assign_step(m, names, values, k - 1) {
            Some(m1) => match infer_spec(m1, values[k - 1]) {
                Some((m2, t)) => Some(if binding(m2.vars, names[k - 1]) < 0 {
                    declare(m2, names[k - 1], param_type(t), false)
                } else {
                    m2
                }),
                None => None,
            },
            None => None,
        }
    }
}

/// Declaring names as `Int`s, in order (the bindings of a pattern).
pub open spec fn declare_ints(m: SemState, names: Seq<Seq<char>>) -> SemState
    decreases names.len(),
{
    if names.len() == 0 {
        m
    } else {
        declare(declare_ints(m, names.drop_last()), names.last(), SpecType::Int, false)
    }
}

pub open spec fn pattern_bindings(p: crate::ast::SpecPattern) -> Seq<Seq<char>> {
    match p {
        crate::ast::SpecPattern::EnumVariantCapture { bindings, .. } => bindings,
        _ => Seq::empty(),
    }
}

/// The state in which a loop's body is checked, before its scope is
/// closed: the loop's variable (if any) declared in a new scope.
pub open spec fn loop_head(m: SemState, kind: crate::ast::SpecLoopKind) -> Option<SemState> {
    match kind {
        crate::ast::SpecLoopKind::FromTo { var, from, to } => match infer_spec(m, from) {
            Some((m1, _)) => match infer_spec(m1, to) {
                Some((m2, _)) => Some(declare(push_scope(m2), var, SpecType::Int, false)),
                None => None,
            },
            None => None,
        },
        crate::ast::SpecLoopKind::ForEach { var, iterable } => match infer_spec(m, iterable) {
            Some((m1, t)) => Some(declare(push_scope(m1), var, elem_type(t), false)),
            None => None,
        },
        crate::ast::SpecLoopKind::Range { var, range } => match infer_spec(m, range) {
            Some((m1, _)) => Some(declare(push_scope(m1), var, SpecType::Int, false)),
            None => None,
        },
        crate::ast::SpecLoopKind::Times(e) => match infer_spec(m, e) {
            Some((m1, _)) => Some(push_scope(m1)),
            None => None,
        },
        crate::ast::SpecLoopKind::While(e) => match infer_spec(m, e) {
            Some((m1, _)) => Some(push_scope(m1)),
            None => None,
        },
        crate::ast::SpecLoopKind::Infinite => Some(push_scope(m)),
    }
}

pub open spec fn not_all_paths_msg(n: Seq<char>) -> Seq<char> {
    "Task '"@ + n + "': not all code paths return a value"@
}

/// The name a call calls, when it calls a name.
pub open spec fn call_name(e: SpecExpr) -> Option<Seq<char>> {
    match e {
        SpecExpr::Call { func, .. } => match *func {
            SpecExpr::Identifier(n) => Some(n),
            _ => None,
        },
        _ => None,
    }
}

pub open spec fn network_msg(n: Seq<char>) -> Seq<char> {
    "Privacy warning: '"@ + n + "' is a network function. Use 'override'."@
}

/// The name of a task declaration whose return type is not `void` and
/// whose body does not return on every path.
pub open spec fn misses_return(s: crate::ast::SpecStmt) -> Option<Seq<char>> {
    match s {
        crate::ast::SpecStmt::TaskDecl { name, return_type, body, .. } => {
            if return_type != SpecType::Void && !block_returns(body) {
                Some(name)
            } else {
                None
            }
        },
        _ => None,
    }
}

/// Whether `msg` is among the errors reported.
pub open spec fn has_error(m: SemState, msg: Seq<char>) -> bool {
    exists|k: int| 0 <= k < m.errors.len() && m.errors[k] == msg
}

/// Every task of `ss` that misses a return on some path is reported.
pub open spec fn missing_returns_reported(m: SemState, ss: Seq<crate::ast::SpecStmt>) -> bool {
    forall|j: int| 0 <= j < ss.len() ==> (#[trigger] misses_return(ss[j]) matches Some(n) ==> has_error(m, not_all_paths_msg(n)))
}

proof fn lemma_reported_kept(a: SemState, b: SemState, ss: Seq<crate::ast::SpecStmt>)
    requires
        missing_returns_reported(a, ss),
        seq_extends(a.errors, b.errors),
    ensures
        missing_returns_reported(b, ss),
{
    assert forall|j: int| 0 <= j < ss.len() implies (#[trigger] misses_return(ss[j]) matches Some(n) ==> has_error(b, not_all_paths_msg(n))) by {
        if misses_return(ss[j]) is Some {
            let n = misses_return(ss[j])->0;
            let k = choose|k: int| 0 <= k < a.errors.len() && a.errors[k] == not_all_paths_msg(n);
            assert(b.errors[k] == a.errors[k]);
        }
    }
}

proof fn lemma_reported_step(a: SemState, b: SemState, pre: Seq<crate::ast::SpecStmt>, s: crate::ast::SpecStmt)
    requires
        missing_returns_reported(a, pre),
        seq_extends(a.errors, b.errors),
        misses_return(s) matches Some(n) ==> b.errors.len() > 0 && b.errors.last() == not_all_paths_msg(n),
    ensures
        missing_returns_reported(b, pre.push(s)),
{
    lemma_reported_kept(a, b, pre);
    let nxt = pre.push(s);
    assert forall|j: int| 0 <= j < nxt.len() implies (#[trigger] misses_return(nxt[j]) matches Some(n) ==> has_error(b, not_all_paths_msg(n))) by {
        if j < pre.len() {
            assert(nxt[j] == pre[j]);
        } else if misses_return(s) is Some {
            assert(b.errors[b.errors.len() - 1] == not_all_paths_msg(misses_return(s)->0));
        }
    }
}

pub open spec fn dead_code_msg() -> Seq<char> {
    "Unreachable code after return/break"@
}

/// `return`, `break` or `continue`.
pub open spec fn is_terminator(s: SpecStmt) -> bool {
    s is Return || s is Break || s is Continue
}

/// Some statement follows a `return`, `break` or `continue`.
pub open spec fn has_dead_code(ss: Seq<SpecStmt>) -> bool {
    exists|j: int| 0 <= j < ss.len() - 1 && #[trigger] is_terminator(ss[j])
}

/// A task's type parameters, declared as constants standing for themselves.
pub open spec fn declare_generics(m: SemState, tps: Seq<Seq<char>>) -> SemState
    decreases tps.len(),
{
    if tps.len() == 0 {
        m
    } else {
        declare(declare_generics(m, tps.drop_last()), tps.last(), SpecType::Generic(tps.last()), true)
    }
}

/// A task's parameters, declared with their types.
pub open spec fn declare_typed(m: SemState, ps: Seq<(Seq<char>, SpecType)>) -> SemState
    decreases ps.len(),
{
    if ps.len() == 0 {
        m
    } else {
        declare(declare_typed(m, ps.drop_last()), ps.last().0, ps.last().1, false)
    }
}

/// Checking statement `s` in state `m`: the state after it. `None` for a
/// statement that reads an expression `infer_spec` leaves undefined, and
/// for a destructuring or a field assignment of a struct value (they
/// depend on the declared structs, which this model leaves out).
pub open spec fn stmt_spec(m: SemState, s: SpecStmt) -> Option<SemState>
    decreases s, 0int,
{
    match s {
        SpecStmt::StructDecl { .. } | SpecStmt::EnumDecl { .. } | SpecStmt::ExternDecl { .. }
        | SpecStmt::TypeAlias { .. } | SpecStmt::UseDecl { .. } | SpecStmt::Import(_) => Some(m),
        SpecStmt::NamespaceDecl { body, .. } => match stmts_spec(push_scope(m), body) {
            Some(m1) => Some(pop_scope(m1)),
            None => None,
        },
        SpecStmt::VarDecl { name, ty, value, .. } => var_decl_step(m, name, ty, value),
        SpecStmt::ConstDecl { name, value } => match infer_spec(m, value) {
            Some((m1, t)) => Some(declare(m1, name, param_type(t), true)),
            None => None,
        },
        SpecStmt::Assign { name, value } => assign_step(m, name, value),
        SpecStmt::CompoundAssign { name, value, .. } => compound_step(m, name, value),
        SpecStmt::MultiAssign { names, values } => multi_assign_step(
            m,
            names,
            values,
            if names.len() < values.len() { names.len() as int } else { values.len() as int },
        ),
        SpecStmt::Destructure { value, .. } => match infer_spec(m, value) {
            Some((_, Some(SpecType::Struct(_)))) => None,
            Some((m1, _)) => Some(m1),
            None => None,
        },
        SpecStmt::FieldAssign { object, .. } => {
            let i = binding(m.vars, object);
            if i < 0 {
                Some(add_error(m, compound_undefined_msg(object)))
            } else if m.vars[i].1.ty is Struct {
                None
            } else {
                Some(add_error(m, not_struct_msg(object)))
            }
        },
        SpecStmt::IndexAssign { array, index, value } => match infer_spec(m, index) {
            Some((m1, _)) => match infer_spec(m1, value) {
                Some((m2, _)) => Some(if binding(m2.vars, array) < 0 {
                    add_error(m2, compound_undefined_msg(array))
                } else {
                    m2
                }),
                None => None,
            },
            None => None,
        },
        SpecStmt::Check { condition, then_block, else_block } => match infer_spec(m, condition) {
            Some((m1, _)) => match scoped_spec(m1, then_block) {
                Some(m2) => match else_block {
                    Some(eb) => scoped_spec(m2, eb),
                    None => Some(m2),
                },
                None => None,
            },
            None => None,
        },
        SpecStmt::Loop { kind, body } => match loop_head(m, kind) {
            Some(m1) => match block_spec(SemState { loop_depth: deeper(m1.loop_depth), ..m1 }, body) {
                Some(m2) => Some(pop_scope(SemState { loop_depth: m1.loop_depth, ..m2 })),
                None => None,
            },
            None => None,
        },
        SpecStmt::Match { value, arms } => match infer_spec(m, value) {
            Some((m1, _)) => arms_spec(m1, arms),
            None => None,
        },
        SpecStmt::Override { body } => match scoped_spec(SemState { override_depth: deeper(m.override_depth), ..m }, body) {
            Some(m1) => Some(SemState { override_depth: m.override_depth, ..m1 }),
            None => None,
        },
        SpecStmt::ConstantTime { body } => scoped_spec(m, body),
        SpecStmt::Spawn { body, .. } => scoped_spec(m, body),
        SpecStmt::Defer { body } => scoped_spec(m, body),
        SpecStmt::Join { handle } => read_step(m, handle),
        SpecStmt::Assert { condition, .. } => read_step(m, condition),
        SpecStmt::StaticAssert { condition, .. } => read_step(m, condition),
        SpecStmt::Free { ptr } => read_step(m, ptr),
        SpecStmt::Print(e) => read_step(m, e),
        SpecStmt::ExprStmt(e) => read_step(m, e),
        SpecStmt::PrintFmt { args, .. } => match infer_seq(m, args) {
            Some((m1, _)) => Some(m1),
            None => None,
        },
        SpecStmt::Purge { variable } => Some(purge_step(m, variable)),
        SpecStmt::Break | SpecStmt::Continue => Some(jump_step(m)),
        SpecStmt::Asm(_) => Some(asm_step(m)),
        SpecStmt::Return(e) => match e {
            Some(x) => if m.in_task { read_step(m, x) } else { Some(m) },
            None => Some(m),
        },
        SpecStmt::TestDecl { body, .. } => match block_spec(push_scope(SemState { in_task: true, ..m }), body) {
            Some(m1) => Some(SemState { in_task: false, ..pop_scope(m1) }),
            None => None,
        },
        SpecStmt::TaskDecl { name, type_params, params, return_type, body, .. } => match block_spec(
            declare_typed(declare_generics(push_scope(SemState { in_task: true, ..m }), type_params), params),
            body,
        ) {
            Some(m1) => {
                let m2 = if return_type != SpecType::Void && !block_returns(body) {
                    add_error(m1, not_all_paths_msg(name))
                } else {
                    m1
                };
                let m3 = if has_dead_code(body.statements) { add_warning(m2, dead_code_msg()) } else { m2 };
                Some(SemState { in_task: m.in_task, ..pop_scope(m3) })
            },
            None => None,
        },
    }
}

/// What checking statement `s` from state `a` promises about the state `b`
/// after it: messages are only added, the scopes are as they were, and `b`
/// is what `stmt_spec` gives where it is defined.
pub open spec fn stepped(a: SemState, b: SemState, s: SpecStmt) -> bool {
    &&& extends(a, b)
    &&& (stmt_spec(a, s) matches Some(m) ==> b == m)
}

/// A block's statements in order, then its tail expression.
pub open spec fn block_spec(m: SemState, b: crate::ast::SpecBlock) -> Option<SemState>
    decreases b, 0int,
{
    match stmts_spec(m, b.statements) {
        Some(m1) => match b.tail_expr {
            Some(e) => read_step(m1, e),
            None => Some(m1),
        },
        None => None,
    }
}

/// A block in a scope of its own.
pub open spec fn scoped_spec(m: SemState, b: crate::ast::SpecBlock) -> Option<SemState>
    decreases b, 1int,
{
    match block_spec(push_scope(m), b) {
        Some(m1) => Some(pop_scope(m1)),
        None => None,
    }
}

pub open spec fn stmts_spec(m: SemState, ss: Seq<SpecStmt>) -> Option<SemState>
    decreases ss, 0int,
{
    if ss.len() == 0 {
        Some(m)
    } else {
        match stmts_spec(m, ss.drop_last()) {
            Some(m1) => stmt_spec(m1, ss.last()),
            None => None,
        }
    }
}

/// The arms of a `match`, each in a scope of its own with its pattern's
/// bindings declared as `Int`s.
pub open spec fn arms_spec(m: SemState, arms: Seq<crate::ast::SpecMatchArm>) -> Option<SemState>
    decreases arms, 0int,
{
    if arms.len() == 0 {
        Some(m)
    } else {
        match arms_spec(m, arms.drop_last()) {
            Some(m1) => match block_spec(declare_ints(push_scope(m1), pattern_bindings(arms.last().pattern)), arms.last().body) {
                Some(m2) => Some(pop_scope(m2)),
                None => None,
            },
            None => None,
        }
    }
}

pub open spec fn strs(v: Seq<String>) -> Seq<Seq<char>> {
    v.map_values(|s: String| s@)
}

spec fn var_view(v: VarInfo) -> SemVar {
    SemVar { ty: type_view(v.var_type), state: v.state, is_const: v.is_const, used: v.used }
}

spec fn vars_view(v: Seq<(String, VarInfo)>) -> Seq<(Seq<char>, SemVar)> {
    v.map_values(|e: (String, VarInfo)| (e.0@, var_view(e.1)))
}

pub open spec fn starts_view(v: Seq<usize>) -> Seq<int> {
    v.map_values(|x: usize| x as int)
}

impl View for Analyzer {
    type V = SemState;

    closed spec fn view(&self) -> SemState {
        SemState {
            errors: strs(self.errors@),
            warnings: strs(self.warnings@),
            vars: vars_view(self.vars@),
            starts: starts_view(self.starts@),
            override_depth: self.override_depth as int,
            loop_depth: self.loop_depth as int,
            in_task: self.current_ret_type is Some,
        }
    }
}

/// The state before any statement: one open scope, nothing reported.
pub open spec fn initial_state() -> SemState {
    SemState {
        errors: Seq::empty(),
        warnings: Seq::empty(),
        vars: Seq::empty(),
        starts: seq![0],
        override_depth: 0,
        loop_depth: 0,
        in_task: false,
    }
}

/// The index of the entry named `name`, if any.
fn find_named<T>(v: &Vec<(String, T)>, name: &str) -> (r: Option<usize>)
    ensures
        r matches Some(i) ==> i < v@.len() && v@[i as int].0@ == name@,
        r is None ==> forall|i: int| 0 <= i < v@.len() ==> v@[i].0@ != name@,
{
    let mut i: usize = 0;
    while i < v.len()
        invariant
            i <= v@.len(),
            forall|j: int| 0 <= j < i ==> v@[j].0@ != name@,
        decreases v.len() - i,
    {
        if str_eq(v[i].0.as_str(), name) {
            return Some(i);
        }
        i = i + 1;
    }
    None
}

/// Records `val` under `name`, in place of an earlier value of that name.
fn put_named<T>(v: &mut Vec<(String, T)>, name: String, val: T)
    ensures
        exists|i: int| 0 <= i < final(v)@.len() && final(v)@[i] == (name, val),
{
    match find_named(v, name.as_str()) {
        Some(i) => {
            v.set(i, (name, val));
            assert(v@[i as int] == (name, val));
        },
        None => {
            v.push((name, val));
            assert(v@[v@.len() - 1] == (name, val));
        },
    }
}

fn contains_str(v: &Vec<String>, n: &str) -> (r: bool)
    ensures
        r == strs(v@).contains(n@),
{
    let mut i: usize = 0;
    while i < v.len()
        invariant
            i <= v@.len(),
            forall|j: int| 0 <= j < i ==> v@[j]@ != n@,
        decreases v.len() - i,
    {
        if str_eq(v[i].as_str(), n) {
            assert(strs(v@)[i as int] == n@);
            return true;
        }
        i = i + 1;
    }
    assert forall|j: int| 0 <= j < strs(v@).len() implies strs(v@)[j] != n@ by {
        assert(strs(v@)[j] == v@[j]@);
    }
    false
}

fn copy_var(v: &VarInfo) -> (r: VarInfo)
    ensures
        var_view(r) == var_view(*v),
        r.sensitive == v.sensitive,
{
    VarInfo {
        var_type: copy_type(&v.var_type),
        state: v.state,
        is_const: v.is_const,
        sensitive: v.sensitive,
        used: v.used,
        assigned: v.assigned,
    }
}

/// The type named by a word of the built-in signatures.
fn str_to_type(s: &str) -> (r: Type) {
    if str_eq(s, "int") {
        Type::Int
    } else if str_eq(s, "float") {
        Type::Float
    } else if str_eq(s, "bool") {
        Type::Bool
    } else if str_eq(s, "string") {
        Type::String
    } else if str_eq(s, "ptr") {
        Type::Ptr
    } else if str_eq(s, "void") {
        Type::Void
    } else {
        Type::Int
    }
}

/// `{:?}` of a binary operator.
pub open spec fn binop_debug(op: BinOp) -> Seq<char> {
    match op {
        BinOp::Add => "Add"@,
        BinOp::Sub => "Sub"@,
        BinOp::Mul => "Mul"@,
        BinOp::Div => "Div"@,
        BinOp::Mod => "Mod"@,
        BinOp::Eq => "Eq"@,
        BinOp::Neq => "Neq"@,
        BinOp::Lt => "Lt"@,
        BinOp::Gt => "Gt"@,
        BinOp::Le => "Le"@,
        BinOp::Ge => "Ge"@,
        BinOp::And => "And"@,
        BinOp::Or => "Or"@,
        BinOp::BitAnd => "BitAnd"@,
        BinOp::BitOr => "BitOr"@,
        BinOp::BitXor => "BitXor"@,
        BinOp::Shl => "Shl"@,
        BinOp::Shr => "Shr"@,
    }
}

/// `{:?}` of a type, as the messages show it.
pub open spec fn debug_of(t: SpecType) -> Seq<char>
    decreases t,
{
    match t {
        SpecType::Int => "Int"@,
        SpecType::Int8 => "Int8"@,
        SpecType::Int16 => "Int16"@,
        SpecType::Int64 => "Int64"@,
        SpecType::Uint8 => "Uint8"@,
        SpecType::Uint16 => "Uint16"@,
        SpecType::Uint32 => "Uint32"@,
        SpecType::Uint64 => "Uint64"@,
        SpecType::Float => "Float"@,
        SpecType::Float32 => "Float32"@,
        SpecType::Bool => "Bool"@,
        SpecType::String => "String"@,
        SpecType::Ptr => "Ptr"@,
        SpecType::Void => "Void"@,
        SpecType::Array(b) => "Array("@ + debug_of(*b) + ")"@,
        SpecType::Slice(b) => "Slice("@ + debug_of(*b) + ")"@,
        SpecType::Result(b) => "Result("@ + debug_of(*b) + ")"@,
        SpecType::Nullable(b) => "Nullable("@ + debug_of(*b) + ")"@,
        SpecType::Async(b) => "Async("@ + debug_of(*b) + ")"@,
        SpecType::Struct(s) => "Struct(\""@ + s + "\")"@,
        SpecType::Enum(s) => "Enum(\""@ + s + "\")"@,
        SpecType::Generic(s) => "Generic(\""@ + s + "\")"@,
        SpecType::Tuple(ts) => "Tuple(["@ + debug_list(ts) + "])"@,
        SpecType::Fn(ps, r) => "Fn(["@ + debug_list(ps) + "], "@ + debug_of(*r) + ")"@,
    }
}

/// The types' `{:?}`, separated by `", "`.
pub open spec fn debug_list(ts: Seq<SpecType>) -> Seq<char>
    decreases ts,
{
    if ts.len() == 0 {
        Seq::empty()
    } else if ts.len() == 1 {
        debug_of(ts[0])
    } else {
        debug_list(ts.drop_last()) + ", "@ + debug_of(ts.last())
    }
}

fn binop_name(op: BinOp) -> (r: &'static str)
    ensures
        r@ == binop_debug(op),
{
    match op {
        BinOp::Add => "Add",
        BinOp::Sub => "Sub",
        BinOp::Mul => "Mul",
        BinOp::Div => "Div",
        BinOp::Mod => "Mod",
        BinOp::Eq => "Eq",
        BinOp::Neq => "Neq",
        BinOp::Lt => "Lt",
        BinOp::Gt => "Gt",
        BinOp::Le => "Le",
        BinOp::Ge => "Ge",
        BinOp::And => "And",
        BinOp::Or => "Or",
        BinOp::BitAnd => "BitAnd",
        BinOp::BitOr => "BitOr",
        BinOp::BitXor => "BitXor",
        BinOp::Shl => "Shl",
        BinOp::Shr => "Shr",
    }
}

/// `{:?}` of a type, as the messages show it.
pub fn type_debug(t: &Type) -> (r: String)
    ensures
        r@ == debug_of(t@),
    decreases t,
{
    match t {
        Type::Int => String::from_str("Int"),
        Type::Int8 => String::from_str("Int8"),
        Type::Int16 => String::from_str("Int16"),
        Type::Int64 => String::from_str("Int64"),
        Type::Uint8 => String::from_str("Uint8"),
        Type::Uint16 => String::from_str("Uint16"),
        Type::Uint32 => String::from_str("Uint32"),
        Type::Uint64 => String::from_str("Uint64"),
        Type::Float => String::from_str("Float"),
        Type::Float32 => String::from_str("Float32"),
        Type::Bool => String::from_str("Bool"),
        Type::String => String::from_str("String"),
        Type::Ptr => String::from_str("Ptr"),
        Type::Void => String::from_str("Void"),
        Type::Array(b) => wrap_debug("Array(", &type_debug(b)),
        Type::Slice(b) => wrap_debug("Slice(", &type_debug(b)),
        Type::Result(b) => wrap_debug("Result(", &type_debug(b)),
        Type::Nullable(b) => wrap_debug("Nullable(", &type_debug(b)),
        Type::Async(b) => wrap_debug("Async(", &type_debug(b)),
        Type::Struct(s) => concat3("Struct(\"", s.as_str(), "\")"),
        Type::Enum(s) => concat3("Enum(\"", s.as_str(), "\")"),
        Type::Generic(s) => concat3("Generic(\"", s.as_str(), "\")"),
        Type::Tuple(ts) => {
            let inner = types_debug(ts);
            concat3("Tuple([", inner.as_str(), "])")
        },
        Type::Fn(ps, r) => {
            let inner = types_debug(ps);
            let ret = type_debug(r);
            let head = concat3("Fn([", inner.as_str(), "], ");
            concat3(head.as_str(), ret.as_str(), ")")
        },
    }
}

fn wrap_debug(head: &str, inner: &String) -> (r: String)
    ensures
        r@ == head@ + inner@ + ")"@,
{
    concat3(head, inner.as_str(), ")")
}

fn types_debug(ts: &Vec<Type>) -> (r: String)
    ensures
        r@ == debug_list(types_view(ts@)),
    decreases ts,
{
    let mut out = String::new();
    let mut i: usize = 0;
    while i < ts.len()
        invariant
            i <= ts@.len(),
            out@ == debug_list(types_view(ts@.take(i as int))),
        decreases ts.len() - i,
    {
        proof {
            lemma_types_view_take(ts@, i as int);
        }
        let d = type_debug(&ts[i]);
        if i > 0 {
            out.append(", ");
        }
        out.append(d.as_str());
        proof {
            let tv = types_view(ts@.take(i + 1));
            assert(tv.drop_last() == types_view(ts@.take(i as int)));
            if i == 0 {
                assert(tv.len() == 1);
            }
        }
        i = i + 1;
    }
    proof {
        assert(ts@.take(ts@.len() as int) =~= ts@);
    }
    out
}

proof fn lemma_types_view_take(s: Seq<Type>, i: int)
    requires
        0 <= i < s.len(),
    ensures
        types_view(s.take(i + 1)) == types_view(s.take(i)).push(type_view(s[i])),
        types_view(s.take(i + 1)).len() == i + 1,
{
    assert(s.take(i + 1).drop_last() =~= s.take(i));
    lemma_types_view(s.take(i + 1));
}

pub open spec fn opt_types_view(v: Seq<Option<Type>>) -> Seq<Option<SpecType>> {
    v.map_values(|t: Option<Type>| opt_type_view(t))
}

proof fn lemma_exprs_view_take(v: Seq<Expr>, i: int)
    requires
        0 <= i <= v.len(),
    ensures
        exprs_view(v.take(i)) == exprs_view(v).take(i),
    decreases v.len(),
{
    if i < v.len() {
        assert(v.drop_last().take(i) =~= v.take(i));
        lemma_exprs_view_take(v.drop_last(), i);
        crate::ast::lemma_exprs_view(v.drop_last());
        assert(exprs_view(v).drop_last() =~= exprs_view(v.drop_last()));
        assert(exprs_view(v).take(i) =~= exprs_view(v.drop_last()).take(i));
    } else {
        crate::ast::lemma_exprs_view(v);
        assert(v.take(i) =~= v);
        assert(exprs_view(v).take(i) =~= exprs_view(v));
    }
}

/// A list that can be read whole can be read up to any point.
proof fn lemma_infer_seq_prefix(m: SemState, es: Seq<SpecExpr>, i: int)
    requires
        0 <= i <= es.len(),
        infer_seq(m, es) is Some,
    ensures
        infer_seq(m, es.take(i)) is Some,
    decreases es.len(),
{
    if i < es.len() {
        assert(es.drop_last().take(i) =~= es.take(i));
        lemma_infer_seq_prefix(m, es.drop_last(), i);
    } else {
        assert(es.take(i) =~= es);
    }
}

proof fn lemma_strs_push(v: Seq<String>, s: String)
    ensures
        strs(v.push(s)) == strs(v).push(s@),
{
    assert(strs(v.push(s)) =~= strs(v).push(s@));
}

impl Analyzer {
    pub fn new() -> (r: Analyzer)
        ensures
            r@ == initial_state(),
    {
        let names = ["connect", "bind", "send", "recv", "socket", "listen", "accept", "getaddrinfo",
            "WSAStartup", "WSAConnect", "curl_easy_perform", "http_get", "http_post", "PQconnectdb",
            "PQexec"];
        let mut network_fns: Vec<String> = Vec::new();
        let mut i: usize = 0;
        while i < 15
            invariant
                i <= 15,
            decreases 15 - i,
        {
            network_fns.push(String::from_str(names[i]));
            i = i + 1;
        }
        let mut starts: Vec<usize> = Vec::new();
        starts.push(0);
        let r = Analyzer {
            vars: Vec::new(),
            starts,
            errors: Vec::new(),
            warnings: Vec::new(),
            task_returns: Vec::new(),
            task_param_types: Vec::new(),
            struct_fields: Vec::new(),
            enum_variants: Vec::new(),
            namespaces: Vec::new(),
            type_aliases: Vec::new(),
            current_ret_type: None,
            override_depth: 0,
            constant_time_depth: 0,
            loop_depth: 0,
            sensitive_names: Vec::new(),
            network_fns,
            current_task_name: None,
        };
        proof {
            assert(strs(r.errors@) =~= Seq::<Seq<char>>::empty());
            assert(strs(r.warnings@) =~= Seq::<Seq<char>>::empty());
            assert(vars_view(r.vars@) =~= Seq::<(Seq<char>, SemVar)>::empty());
            assert(starts_view(r.starts@) =~= seq![0int]);
        }
        r
    }

    /// Collects the declarations, then checks every statement (as
    /// `stmts_spec` says where it is defined); `Err` holds the errors found
    /// if there are any. Warnings stay in the analyzer.
    pub fn analyze(&mut self, program: &Program) -> (r: Result<(), Vec<String>>)
        requires
            wf(old(self)@),
        ensures
            wf(final(self)@),
            seq_extends(old(self)@.errors, final(self)@.errors),
            seq_extends(old(self)@.warnings, final(self)@.warnings),
            r is Ok <==> final(self)@.errors.len() == 0,
            r matches Err(es) ==> strs(es@) == final(self)@.errors,
            stmts_spec(old(self)@, program@.statements) matches Some(m) ==> final(self)@ == m,
            missing_returns_reported(final(self)@, program@.statements),
    {
        self.collect_declarations(&program.statements);
        self.register_builtins();
        self.analyze_stmts(&program.statements);
        self.errors_result()
    }

    /// The warnings collected so far.
    pub fn warnings(&self) -> (r: &Vec<String>)
        ensures
            strs(r@) == self@.warnings,
    {
        &self.warnings
    }

    fn errors_result(&self) -> (r: Result<(), Vec<String>>)
        ensures
            r is Ok <==> self@.errors.len() == 0,
            r matches Err(es) ==> strs(es@) == self@.errors,
    {
        if self.errors.len() == 0 {
            Ok(())
        } else {
            let mut es: Vec<String> = Vec::new();
            let mut i: usize = 0;
            while i < self.errors.len()
                invariant
                    i <= self.errors@.len(),
                    es@.len() == i,
                    forall|j: int| 0 <= j < i ==> #[trigger] es@[j]@ == self.errors@[j]@,
                decreases self.errors.len() - i,
            {
                es.push(self.errors[i].clone());
                i = i + 1;
            }
            assert(strs(es@) =~= strs(self.errors@));
            Err(es)
        }
    }

    fn collect_declarations(&mut self, stmts: &Vec<Stmt>)
        ensures
            final(self)@ == old(self)@,
    {
        let mut i: usize = 0;
        while i < stmts.len()
            invariant
                self@ == old(self)@,
            decreases stmts.len() - i,
        {
            match &stmts[i] {
                Stmt::StructDecl { name, fields, .. } => {
                    put_named(&mut self.struct_fields, name.clone(), copy_typed_names(fields));
                },
                Stmt::EnumDecl { name, variants } => {
                    put_named(&mut self.enum_variants, name.clone(), copy_variants(variants));
                },
                Stmt::TaskDecl { name, params, return_type, .. } => {
                    let mut ptypes: Vec<Type> = Vec::new();
                    let mut k: usize = 0;
                    while k < params.len()
                        invariant
                            k <= params@.len(),
                        decreases params.len() - k,
                    {
                        ptypes.push(copy_type(&params[k].1));
                        k = k + 1;
                    }
                    put_named(&mut self.task_param_types, name.clone(), ptypes);
                    put_named(&mut self.task_returns, name.clone(), copy_type(return_type));
                },
                Stmt::ExternDecl { name, params, return_type, .. } => {
                    put_named(&mut self.task_param_types, name.clone(), copy_types(params));
                    put_named(&mut self.task_returns, name.clone(), copy_type(return_type));
                },
                Stmt::TypeAlias { name, ty } => {
                    put_named(&mut self.type_aliases, name.clone(), copy_type(ty));
                },
                Stmt::NamespaceDecl { name, body } => {
                    put_named(&mut self.namespaces, name.clone(), copy_stmts(body));
                    let mut k: usize = 0;
                    while k < body.len()
                        invariant
                            k <= body@.len(),
                            self@ == old(self)@,
                        decreases body.len() - k,
                    {
                        match &body[k] {
                            Stmt::TaskDecl { name: tname, params, return_type, .. } => {
                                let full = concat3(name.as_str(), "::", tname.as_str());
                                let mut ptypes: Vec<Type> = Vec::new();
                                let mut q: usize = 0;
                                while q < params.len()
                                    invariant
                                        q <= params@.len(),
                                    decreases params.len() - q,
                                {
                                    ptypes.push(copy_type(&params[q].1));
                                    q = q + 1;
                                }
                                put_named(&mut self.task_param_types, full.clone(), ptypes);
                                put_named(&mut self.task_returns, full, copy_type(return_type));
                            },
                            _ => {},
                        }
                        k = k + 1;
                    }
                },
                _ => {},
            }
            i = i + 1;
        }
    }

    fn register_builtins(&mut self)
        ensures
            final(self)@ == old(self)@,
    {
        self.builtin("min", "int", "int", "", "int");
        self.builtin("max", "int", "int", "", "int");
        self.builtin("abs", "int", "", "", "int");
        self.builtin("clamp", "int", "int", "int", "int");
        self.builtin("minf", "float", "float", "", "float");
        self.builtin("maxf", "float", "float", "", "float");
        self.builtin("str_eq", "string", "string", "", "bool");
        self.builtin("str_len", "string", "", "", "int");
    }

    /// A built-in function of up to three parameters (an empty word ends
    /// the list).
    fn builtin(&mut self, name: &str, p1: &str, p2: &str, p3: &str, ret: &str)
        ensures
            final(self)@ == old(self)@,
    {
        let mut ptypes: Vec<Type> = Vec::new();
        if !str_eq(p1, "") {
            ptypes.push(str_to_type(p1));
            if !str_eq(p2, "") {
                ptypes.push(str_to_type(p2));
                if !str_eq(p3, "") {
                    ptypes.push(str_to_type(p3));
                }
            }
        }
        put_named(&mut self.task_param_types, String::from_str(name), ptypes);
        put_named(&mut self.task_returns, String::from_str(name), str_to_type(ret));
    }

    fn error(&mut self, msg: String)
        ensures
            final(self)@ == add_error(old(self)@, msg@),
            wf(old(self)@) ==> extends(old(self)@, final(self)@),
    {
        proof {
            lemma_strs_push(self.errors@, msg);
        }
        self.errors.push(msg);
    }

    fn warn(&mut self, msg: String)
        ensures
            final(self)@ == add_warning(old(self)@, msg@),
            wf(old(self)@) ==> extends(old(self)@, final(self)@),
    {
        proof {
            lemma_strs_push(self.warnings@, msg);
        }
        self.warnings.push(msg);
    }

    fn push_scope(&mut self)
        requires
            wf(old(self)@),
        ensures
            final(self)@ == push_scope(old(self)@),
            wf(final(self)@),
    {
        let n = self.vars.len();
        self.starts.push(n);
        proof {
            assert(starts_view(self.starts@) =~= starts_view(old(self).starts@).push(n as int));
        }
    }

    /// The latest entry named `name`.
    fn lookup_var(&self, name: &str) -> (r: Option<usize>)
        ensures
            match r {
                Some(i) => i as int == binding(self@.vars, name@) && i < self.vars@.len()
                    && self@.vars[i as int].0 == name@,
                None => binding(self@.vars, name@) == -1,
            },
            binding(self@.vars, name@) < self@.vars.len(),
    {
        proof {
            lemma_binding_range(self@.vars, name@);
        }
        let ghost vs = self@.vars;
        let mut i: usize = self.vars.len();
        proof {
            assert(vs.take(i as int) =~= vs);
        }
        while i > 0
            invariant
                i <= self.vars@.len(),
                vs == vars_view(self.vars@),
                vs.len() == self.vars@.len(),
                binding(vs, name@) == binding(vs.take(i as int), name@),
            decreases i,
        {
            proof {
                assert(vs.take(i as int).drop_last() =~= vs.take(i - 1));
                assert(vs.take(i as int).last() == vs[i - 1]);
                assert(vs[i - 1].0 == self.vars@[i - 1].0@);
            }
            if str_eq(self.vars[i - 1].0.as_str(), name) {
                return Some(i - 1);
            }
            i = i - 1;
        }
        proof {
            assert(vs.take(0) =~= Seq::<(Seq<char>, SemVar)>::empty());
        }
        None
    }

    fn in_top_scope(&self, name: &str) -> (r: bool)
        requires
            wf(self@),
        ensures
            r == in_top_scope(self@, name@),
    {
        let start = self.starts[self.starts.len() - 1];
        proof {
            assert(self@.starts.last() == start as int);
        }
        let mut i: usize = start;
        while i < self.vars.len()
            invariant
                start <= i <= self.vars@.len(),
                self@.starts.last() == start as int,
                forall|j: int| start <= j < i ==> #[trigger] self@.vars[j].0 != name@,
            decreases self.vars.len() - i,
        {
            proof {
                assert(self@.vars[i as int].0 == self.vars@[i as int].0@);
            }
            if str_eq(self.vars[i].0.as_str(), name) {
                return true;
            }
            i = i + 1;
        }
        false
    }

    fn declare_var(&mut self, name: &str, var_type: Type, is_const: bool, sensitive: bool)
        requires
            wf(old(self)@),
        ensures
            final(self)@ == declare(old(self)@, name@, var_type@, is_const),
            wf(final(self)@),
    {
        if sensitive {
            if !contains_str(&self.sensitive_names, name) {
                self.sensitive_names.push(String::from_str(name));
            }
        }
        if self.in_top_scope(name) {
            self.error(concat3("'", name, "' already declared in this scope"));
        } else {
            let ghost tv = var_type@;
            let info = VarInfo { var_type, state: VarState::Live, is_const, sensitive, used: false, assigned: true };
            let entry = (String::from_str(name), info);
            self.vars.push(entry);
            proof {
                assert(vars_view(self.vars@) =~= vars_view(old(self).vars@).push(
                    (name@, SemVar { ty: tv, state: VarState::Live, is_const, used: false }),
                ));
            }
        }
    }

    fn mark_used(&mut self, name: &str)
        ensures
            final(self)@ == mark_used(old(self)@, name@),
            wf(old(self)@) ==> extends(old(self)@, final(self)@),
            final(self)@.vars.len() == old(self)@.vars.len(),
    {
        match self.lookup_var(name) {
            Some(i) => {
                let mut info = copy_var(&self.vars[i].1);
                info.used = true;
                let ghost newv = (name@, var_view(info));
                let n = self.vars[i].0.clone();
                self.vars.set(i, (n, info));
                proof {
                    assert(vars_view(self.vars@) =~= vars_view(old(self).vars@).update(i as int, newv));
                }
            },
            None => {},
        }
    }

    fn set_var_state(&mut self, name: &str, state: VarState)
        ensures
            final(self)@ == set_var_state(old(self)@, name@, state),
            wf(old(self)@) ==> extends(old(self)@, final(self)@),
            final(self)@.vars.len() == old(self)@.vars.len(),
    {
        match self.lookup_var(name) {
            Some(i) => {
                let mut info = copy_var(&self.vars[i].1);
                info.state = state;
                let ghost newv = (name@, var_view(info));
                let n = self.vars[i].0.clone();
                self.vars.set(i, (n, info));
                proof {
                    assert(vars_view(self.vars@) =~= vars_view(old(self).vars@).update(i as int, newv));
                }
            },
            None => {},
        }
    }

    /// Reads a variable: see `usable`.
    fn check_usable(&mut self, name: &str) -> (r: Option<Type>)
        requires
            wf(old(self)@),
        ensures
            (final(self)@, match r {
                Some(t) => Some(t@),
                None => None,
            }) == usable(old(self)@, name@),
            wf(final(self)@),
            extends(old(self)@, final(self)@),
            final(self)@.vars.len() == old(self)@.vars.len(),
    {
        self.mark_used(name);
        match self.lookup_var(name) {
            Some(i) => {
                let state = self.vars[i].1.state;
                match state {
                    VarState::Live => Some(copy_type(&self.vars[i].1.var_type)),
                    VarState::Moved => {
                        self.error(concat3("'", name, "' was moved"));
                        None
                    },
                    VarState::Purged => {
                        self.error(concat3("'", name, "' was purged"));
                        None
                    },
                }
            },
            None => {
                self.error(concat3("'", name, "' is not defined"));
                None
            },
        }
    }

    fn pop_scope(&mut self)
        requires
            wf(old(self)@),
            old(self)@.starts.len() >= 2,
        ensures
            final(self)@ == pop_scope(old(self)@),
            wf(final(self)@),
    {
        let start = self.starts.pop().unwrap();
        assert(self.starts@ == old(self).starts@.drop_last());
        proof {
            assert(starts_view(self.starts@) =~= starts_view(old(self).starts@).drop_last());
            assert(old(self)@.starts.last() == start as int);
        }
        let ghost vs = old(self)@.vars;
        let mut j: usize = start;
        proof {
            assert(unused_warnings(vs, start as int, start as int) =~= Seq::<Seq<char>>::empty());
            assert(strs(self.warnings@) + Seq::<Seq<char>>::empty() =~= strs(self.warnings@));
        }
        while j < self.vars.len()
            invariant
                start <= j <= self.vars@.len(),
                vs == vars_view(self.vars@),
                self.vars@ == old(self).vars@,
                self.errors@ == old(self).errors@,
                self.starts@ == old(self).starts@.drop_last(),
                self.override_depth == old(self).override_depth,
                self.loop_depth == old(self).loop_depth,
                self.current_ret_type == old(self).current_ret_type,
                strs(self.warnings@) == strs(old(self).warnings@) + unused_warnings(vs, start as int, j as int),
            decreases self.vars.len() - j,
        {
            let v = &self.vars[j].1;
            proof {
                assert(vs[j as int].1 == var_view(self.vars@[j as int].1));
                assert(vs[j as int].0 == self.vars@[j as int].0@);
            }
            if !v.used && v.state == VarState::Live && !v.is_const {
                let msg = concat3("unused variable '", self.vars[j].0.as_str(), "'");
                proof {
                    lemma_strs_push(self.warnings@, msg);
                }
                self.warnings.push(msg);
            }
            j = j + 1;
        }
        self.vars.truncate(start);
        proof {
            assert(vars_view(self.vars@) =~= vs.take(start as int));
            assert(self@.warnings =~= pop_scope(old(self)@).warnings);
            assert(self@.starts =~= pop_scope(old(self)@).starts);
            assert(self@ =~= pop_scope(old(self)@));
        }
    }

    /// A struct type named by an alias stands for the aliased type.
    fn resolve_type(&self, ty: &Type) -> (r: Type) {
        match ty {
            Type::Struct(name) => match find_named(&self.type_aliases, name.as_str()) {
                Some(i) => copy_type(&self.type_aliases[i].1),
                None => copy_type(ty),
            },
            _ => copy_type(ty),
        }
    }

    fn enter_loop(&mut self) -> (saved: usize)
        ensures
            saved == old(self).loop_depth,
            final(self)@ == (SemState { loop_depth: deeper(old(self)@.loop_depth), ..old(self)@ }),
            final(self)@.loop_depth >= 1,
            wf(old(self)@) ==> wf(final(self)@),
    {
        let saved = self.loop_depth;
        self.loop_depth = if saved < usize::MAX { saved + 1 } else { saved };
        saved
    }

    fn enter_override(&mut self) -> (saved: usize)
        ensures
            saved == old(self).override_depth,
            final(self)@ == (SemState { override_depth: deeper(old(self)@.override_depth), ..old(self)@ }),
            final(self)@.override_depth >= 1,
            wf(old(self)@) ==> wf(final(self)@),
    {
        let saved = self.override_depth;
        self.override_depth = if saved < usize::MAX { saved + 1 } else { saved };
        saved
    }

    // ── Types of expressions ────────────────────────────────────────────

    fn infer_all(&mut self, v: &Vec<Expr>)
        requires
            wf(old(self)@),
        ensures
            extends(old(self)@, final(self)@),
            final(self)@.vars.len() == old(self)@.vars.len(),
        decreases v, 1int,
    {
        let mut i: usize = 0;
        while i < v.len()
            invariant
                i <= v@.len(),
                extends(old(self)@, self@),
                self@.vars.len() == old(self)@.vars.len(),
            decreases v.len() - i,
        {
            self.infer_type(&v[i]);
            i = i + 1;
        }
    }

    /// The types of a list of expressions, checked in order.
    fn infer_list(&mut self, v: &Vec<Expr>) -> (r: Vec<Option<Type>>)
        requires
            wf(old(self)@),
        ensures
            extends(old(self)@, final(self)@),
            final(self)@.vars.len() == old(self)@.vars.len(),
            r@.len() == v@.len(),
            infer_seq(old(self)@, exprs_view(v@)) matches Some((m, ts)) ==> final(self)@ == m
                && opt_types_view(r@) == ts,
        decreases v, 1int,
    {
        let mut r: Vec<Option<Type>> = Vec::new();
        let mut i: usize = 0;
        proof {
            assert(opt_types_view(r@) =~= Seq::<Option<SpecType>>::empty());
            assert(v@.take(0) =~= Seq::<Expr>::empty());
        }
        while i < v.len()
            invariant
                i <= v@.len(),
                r@.len() == i,
                extends(old(self)@, self@),
                self@.vars.len() == old(self)@.vars.len(),
                infer_seq(old(self)@, exprs_view(v@)) is Some ==> (infer_seq(old(self)@, exprs_view(v@.take(i as int)))
                    matches Some((m, ts)) && self@ == m && opt_types_view(r@) == ts),
            decreases v.len() - i,
        {
            proof {
                lemma_exprs_view_push(v@.take(i as int), v@[i as int]);
                assert(v@.take(i as int).push(v@[i as int]) =~= v@.take(i + 1));
                if infer_seq(old(self)@, exprs_view(v@)) is Some {
                    crate::ast::lemma_exprs_view(v@);
                    lemma_exprs_view_take(v@, i + 1);
                    lemma_infer_seq_prefix(old(self)@, exprs_view(v@), i + 1);
                }
                let es = exprs_view(v@.take(i + 1));
                assert(es.drop_last() == exprs_view(v@.take(i as int)));
            }
            let t = self.infer_type(&v[i]);
            let ghost before = r@;
            r.push(t);
            proof {
                assert(opt_types_view(r@) =~= opt_types_view(before).push(opt_type_view(t)));
            }
            i = i + 1;
        }
        proof {
            assert(v@.take(v@.len() as int) =~= v@);
        }
        r
    }

    fn infer_named(&mut self, v: &Vec<(String, Expr)>)
        requires
            wf(old(self)@),
        ensures
            extends(old(self)@, final(self)@),
            final(self)@.vars.len() == old(self)@.vars.len(),
        decreases v, 1int,
    {
        let mut i: usize = 0;
        while i < v.len()
            invariant
                i <= v@.len(),
                extends(old(self)@, self@),
                self@.vars.len() == old(self)@.vars.len(),
            decreases v.len() - i,
        {
            self.infer_type(&v[i].1);
            i = i + 1;
        }
    }

    /// The type of an expression, checking it on the way (`None` where it
    /// has none or an error was reported).
    fn infer_type(&mut self, expr: &Expr) -> (r: Option<Type>)
        requires
            wf(old(self)@),
        ensures
            inferred(old(self)@, final(self)@, expr@, opt_type_view(r)),
        decreases expr, 1int,
    {
        match expr {
            Expr::Integer(_) => Some(Type::Int),
            Expr::Float(_) => Some(Type::Float),
            Expr::Boolean(_) => Some(Type::Bool),
            Expr::StringLiteral(_) => Some(Type::String),
            Expr::Null => Some(Type::Ptr),
            Expr::InterpolatedString(_) => Some(Type::String),
            Expr::Range { .. } => Some(Type::Array(Box::new(Type::Int))),
            Expr::EnumVariant { .. } => Some(Type::Int),
            Expr::ErrExpr(_) => Some(Type::Result(Box::new(Type::Int))),
            Expr::Identifier(name) => self.check_usable(name.as_str()),
            Expr::NamespacedIdent { namespace, name } => {
                let full = concat3(namespace.as_str(), "::", name.as_str());
                self.check_usable(full.as_str())
            },
            Expr::Tuple(_) | Expr::Array(_) => self.infer_collection(expr),
            Expr::TupleIndex { .. } | Expr::PropagateErr(_) | Expr::OkExpr(_) | Expr::Unwrap(_) | Expr::Abs(_)
            | Expr::Comptime(_) | Expr::Await(_) | Expr::Copy(_) | Expr::UnaryOp { .. } => self.infer_wrapped(expr),
            Expr::StructLiteral { .. } => self.infer_struct_literal(expr),
            Expr::FieldAccess { .. } => self.infer_field_access(expr),
            Expr::BinaryOp { .. } => self.infer_binary(expr),
            Expr::Call { .. } => self.infer_call(expr),
            Expr::Closure { .. } => self.infer_closure(expr),
            _ => self.infer_operands(expr),
        }
    }

    /// A tuple or an array literal.
    fn infer_collection(&mut self, expr: &Expr) -> (r: Option<Type>)
        requires
            wf(old(self)@),
            expr is Tuple || expr is Array,
        ensures
            inferred(old(self)@, final(self)@, expr@, opt_type_view(r)),
        decreases expr, 0int,
    {
        match expr {
            Expr::Tuple(elems) => {
                let found = self.infer_list(elems);
                let ghost ov = opt_types_view(found@);
                let mut types: Vec<Type> = Vec::new();
                let mut i: usize = 0;
                proof {
                    assert(ov.take(0) =~= Seq::<Option<SpecType>>::empty());
                }
                while i < found.len()
                    invariant
                        i <= found@.len(),
                        ov == opt_types_view(found@),
                        types_view(types@) == somes(ov.take(i as int)),
                    decreases found.len() - i,
                {
                    let ghost before = types@;
                    proof {
                        assert(ov.take(i + 1).drop_last() =~= ov.take(i as int));
                        assert(ov.take(i + 1).last() == opt_type_view(found@[i as int]));
                    }
                    match &found[i] {
                        Some(t) => {
                            types.push(copy_type(t));
                            proof {
                                assert(types@.drop_last() =~= before);
                            }
                        },
                        None => {},
                    }
                    i = i + 1;
                }
                proof {
                    assert(ov.take(found@.len() as int) =~= ov);
                    assert(types_view(types@) == somes(ov));
                    assert(expr@ == SpecExpr::Tuple(exprs_view(elems@)));
                }
                Some(Type::Tuple(types))
            },
            Expr::Array(elems) => {
                let found = self.infer_list(elems);
                let ghost ov = opt_types_view(found@);
                let mut first: Option<Type> = None;
                let mut i: usize = 0;
                proof {
                    assert(ov.skip(0) =~= ov);
                }
                while i < found.len()
                    invariant
                        i <= found@.len(),
                        ov == opt_types_view(found@),
                        first is None ==> first_some(ov) == first_some(ov.skip(i as int)),
                        first matches Some(t) ==> first_some(ov) == Some(t@),
                    decreases found.len() - i,
                {
                    proof {
                        assert(ov.skip(i as int)[0] == opt_type_view(found@[i as int]));
                        assert(ov.skip(i as int).drop_first() =~= ov.skip(i + 1));
                    }
                    if first.is_none() {
                        match &found[i] {
                            Some(t) => {
                                first = Some(copy_type(t));
                            },
                            None => {},
                        }
                    }
                    i = i + 1;
                }
                proof {
                    assert(ov.skip(found@.len() as int).len() == 0);
                }
                let et = match first {
                    Some(t) => t,
                    None => Type::Int,
                };
                proof {
                    assert(et@ == param_type(first_some(ov)));
                    assert(expr@ == SpecExpr::Array(exprs_view(elems@)));
                }
                Some(Type::Array(Box::new(et)))
            },
            _ => None,
        }
    }

    /// The forms whose type comes from the one expression inside them.
    #[verifier::rlimit(50)]
    fn infer_wrapped(&mut self, expr: &Expr) -> (r: Option<Type>)
        requires
            wf(old(self)@),
            expr is TupleIndex || expr is PropagateErr || expr is OkExpr || expr is Unwrap || expr is Abs
                || expr is Comptime || expr is Await || expr is Copy || expr is UnaryOp,
        ensures
            inferred(old(self)@, final(self)@, expr@, opt_type_view(r)),
        decreases expr, 0int,
    {
        match expr {
            Expr::TupleIndex { tuple, index } => {
                match self.infer_type(tuple) {
                    Some(Type::Tuple(types)) => {
                        proof {
                            lemma_types_view(types@);
                        }
                        if *index < types.len() {
                            Some(copy_type(&types[*index]))
                        } else {
                            None
                        }
                    },
                    _ => {
                        self.error(String::from_str("Tuple index on non-tuple type"));
                        None
                    },
                }
            },
            Expr::Abs(inner) => self.infer_type(inner),
            Expr::Comptime(inner) => self.infer_type(inner),
            Expr::Await(inner) => self.infer_type(inner),
            Expr::Copy(inner) => self.infer_type(inner),
            Expr::PropagateErr(inner) => {
                match self.infer_type(inner) {
                    Some(Type::Result(t)) => Some(*t),
                    _ => self.infer_type(inner),
                }
            },
            Expr::OkExpr(inner) => match self.infer_type(inner) {
                Some(t) => Some(Type::Result(Box::new(t))),
                None => None,
            },
            Expr::Unwrap(inner) => match self.infer_type(inner) {
                Some(Type::Result(t)) => Some(*t),
                _ => {
                    self.error(String::from_str("unwrap requires Result type"));
                    None
                },
            },
            Expr::UnaryOp { op, operand } => {
                let t = self.infer_type(operand);
                match op {
                    UnaryOp::Neg => t,
                    UnaryOp::Not => Some(Type::Bool),
                    UnaryOp::BitNot => Some(Type::Int),
                }
            },
            _ => None,
        }
    }

    /// The forms that read their operands and have a type of their own.
    #[verifier::rlimit(50)]
    fn infer_operands(&mut self, expr: &Expr) -> (r: Option<Type>)
        requires
            wf(old(self)@),
            expr is Min || expr is Max || expr is StrLen || expr is StrConcat || expr is StrSlice
                || expr is StrContains || expr is StrToInt || expr is IntToStr || expr is IsOk
                || expr is Nullable || expr is Alloc || expr is Cast || expr is Index || expr is AddressOf
                || expr is Deref,
        ensures
            inferred(old(self)@, final(self)@, expr@, opt_type_view(r)),
        decreases expr, 0int,
    {
        match expr {
            Expr::Min(a, b) | Expr::Max(a, b) => {
                let ta = self.infer_type(a);
                let tb = self.infer_type(b);
                match (ta, tb) {
                    (Some(Type::Float), Some(Type::Float)) => Some(Type::Float),
                    _ => Some(Type::Int),
                }
            },
            Expr::StrLen(a) => {
                self.infer_type(a);
                Some(Type::Int)
            },
            Expr::StrConcat(a, b) => {
                self.infer_type(a);
                self.infer_type(b);
                Some(Type::String)
            },
            Expr::StrSlice { s, start, end } => {
                self.infer_type(s);
                self.infer_type(start);
                self.infer_type(end);
                Some(Type::String)
            },
            Expr::StrContains { s, needle } => {
                self.infer_type(s);
                self.infer_type(needle);
                Some(Type::Bool)
            },
            Expr::StrToInt(a) => {
                self.infer_type(a);
                Some(Type::Int)
            },
            Expr::IntToStr(a) => {
                self.infer_type(a);
                Some(Type::String)
            },
            Expr::IsOk(inner) => {
                self.infer_type(inner);
                Some(Type::Bool)
            },
            Expr::Nullable(inner) => {
                self.infer_type(inner);
                Some(Type::Bool)
            },
            Expr::Alloc { count, size } => {
                self.infer_type(count);
                self.infer_type(size);
                Some(Type::Ptr)
            },
            Expr::Cast { expr: inner, to } => {
                self.infer_type(inner);
                Some(copy_type(to))
            },
            Expr::Index { array, index } => {
                let at = self.infer_type(array);
                self.infer_type(index);
                match at {
                    Some(Type::Array(inner)) => Some(*inner),
                    Some(Type::Slice(inner)) => Some(*inner),
                    _ => Some(Type::Int),
                }
            },
            Expr::AddressOf(inner) => {
                if self.override_depth == 0 {
                    self.error(String::from_str("'&' only inside 'override'"));
                }
                self.infer_type(inner);
                Some(Type::Ptr)
            },
            Expr::Deref(inner) => {
                if self.override_depth == 0 {
                    self.error(String::from_str("'*' only inside 'override'"));
                }
                self.infer_type(inner);
                Some(Type::Int)
            },
            _ => None,
        }
    }

    /// A closure: its parameters are declared in a scope of their own, in
    /// which the body is read.
    fn infer_closure(&mut self, expr: &Expr) -> (r: Option<Type>)
        requires
            wf(old(self)@),
            expr is Closure,
        ensures
            inferred(old(self)@, final(self)@, expr@, opt_type_view(r)),
        decreases expr, 0int,
    {
        match expr {
            Expr::Closure { params, body } => {
                let ghost ps = crate::ast::closure_params_view(params@);
                self.push_scope();
                let mut ptypes: Vec<Type> = Vec::new();
                let mut i: usize = 0;
                proof {
                    assert(ps.take(0) =~= Seq::<(Seq<char>, Option<SpecType>)>::empty());
                }
                while i < params.len()
                    invariant
                        i <= params@.len(),
                        ps == crate::ast::closure_params_view(params@),
                        extends(push_scope(old(self)@), self@),
                        self@ == declare_params(push_scope(old(self)@), ps.take(i as int)),
                        types_view(ptypes@) == param_types(ps.take(i as int)),
                    decreases params.len() - i,
                {
                    proof {
                        assert(ps.take(i + 1).drop_last() =~= ps.take(i as int));
                        assert(ps.take(i + 1).last() == ps[i as int]);
                    }
                    let t = match &params[i].1 {
                        Some(t) => copy_type(t),
                        None => Type::Int,
                    };
                    let t2 = copy_type(&t);
                    self.declare_var(params[i].0.as_str(), t, false, false);
                    let ghost before = ptypes@;
                    ptypes.push(t2);
                    proof {
                        assert(ptypes@.drop_last() =~= before);
                    }
                    i = i + 1;
                }
                proof {
                    assert(ps.take(params@.len() as int) =~= ps);
                }
                let ghost m0 = self@;
                assert(m0 == declare_params(push_scope(old(self)@), ps));
                let ret = self.infer_type(body);
                let ghost m1 = self@;
                self.pop_scope();
                let ret_ty = match ret {
                    Some(t) => t,
                    None => Type::Void,
                };
                proof {
                    assert(types_view(ptypes@) == param_types(ps));
                    assert(expr@ == SpecExpr::Closure { params: ps, body: Box::new(body@) });
                    if infer_spec(m0, body@) is Some {
                        assert(infer_spec(m0, body@) == Some((m1, opt_type_view(ret))));
                        assert(self@ == pop_scope(m1));
                        assert(ret_ty@ == match opt_type_view(ret) {
                            Some(t) => t,
                            None => SpecType::Void,
                        });
                    }
                }
                Some(Type::Fn(ptypes, Box::new(ret_ty)))
            },
            _ => None,
        }
    }

    fn infer_field_access(&mut self, expr: &Expr) -> (r: Option<Type>)
        requires
            wf(old(self)@),
            expr is FieldAccess,
        ensures
            inferred(old(self)@, final(self)@, expr@, opt_type_view(r)),
        decreases expr, 0int,
    {
        match expr {
            Expr::FieldAccess { object, field } => {
                match self.infer_type(object) {
                    Some(Type::Struct(sname)) => {
                        match find_named(&self.struct_fields, sname.as_str()) {
                            Some(k) => {
                                match find_named(&self.struct_fields[k].1, field.as_str()) {
                                    Some(f) => Some(copy_type(&self.struct_fields[k].1[f].1)),
                                    None => {
                                        self.error(concat5("Struct '", sname.as_str(), "' has no field '", field.as_str(), "'"));
                                        None
                                    },
                                }
                            },
                            None => None,
                        }
                    },
                    _ => {
                        self.error(String::from_str("Field access on non-struct"));
                        None
                    },
                }
            },
            _ => None,
        }
    }

    fn infer_struct_literal(&mut self, expr: &Expr) -> (r: Option<Type>)
        requires
            wf(old(self)@),
            expr is StructLiteral,
        ensures
            inferred(old(self)@, final(self)@, expr@, opt_type_view(r)),
        decreases expr, 0int,
    {
        let (name, fields) = match expr {
            Expr::StructLiteral { name, fields } => (name, fields),
            _ => {
                return None;
            },
        };
        match find_named(&self.struct_fields, name.as_str()) {
            Some(k) => {
                let decl_fields = copy_typed_names(&self.struct_fields[k].1);
                self.check_field_values(name, &decl_fields, fields);
                Some(Type::Struct(name.clone()))
            },
            None => {
                self.error(concat3("Unknown struct '", name.as_str(), "'"));
                None
            },
        }
    }

    fn check_field_values(&mut self, name: &String, decl_fields: &Vec<(String, Type)>, fields: &Vec<(String, Expr)>)
        requires
            wf(old(self)@),
        ensures
            extends(old(self)@, final(self)@),
            final(self)@.vars.len() == old(self)@.vars.len(),
        decreases fields, 1int,
    {
        let mut i: usize = 0;
        while i < fields.len()
            invariant
                i <= fields@.len(),
                extends(old(self)@, self@),
                self@.vars.len() == old(self)@.vars.len(),
            decreases fields.len() - i,
        {
            let fname = &fields[i].0;
            match find_named(decl_fields, fname.as_str()) {
                Some(f) => {
                    let at = self.infer_type(&fields[i].1);
                    let decl_ty = &decl_fields[f].1;
                    match at {
                        Some(actual) => {
                            let generic = matches!(decl_ty, Type::Generic(_));
                            if !generic && !type_eq(&actual, decl_ty) {
                                let a = type_debug(&actual);
                                let d = type_debug(decl_ty);
                                let head = concat3("Field '", fname.as_str(), "': expected ");
                                self.error(concat5(head.as_str(), d.as_str(), ", got ", a.as_str(), ""));
                            }
                        },
                        None => {},
                    }
                },
                None => {
                    self.error(concat5("Unknown field '", fname.as_str(), "' in struct '", name.as_str(), "'"));
                },
            }
            i = i + 1;
        }
    }

    fn infer_binary(&mut self, expr: &Expr) -> (r: Option<Type>)
        requires
            wf(old(self)@),
            expr is BinaryOp,
        ensures
            inferred(old(self)@, final(self)@, expr@, opt_type_view(r)),
        decreases expr, 0int,
    {
        let (left, op, right) = match expr {
            Expr::BinaryOp { left, op, right } => (left, *op, right),
            _ => {
                return None;
            },
        };
        let lt = self.infer_type(left);
        let rt = self.infer_type(right);
        match (lt, rt) {
            (Some(l), Some(r)) => {
                match op {
                    BinOp::And | BinOp::Or => {
                        if !matches!(l, Type::Bool) {
                            let d = type_debug(&l);
                            let head = concat3("'", binop_name(op), "' needs bool, got ");
                            self.error(concat2(head.as_str(), d.as_str()));
                        }
                        if !matches!(r, Type::Bool) {
                            let d = type_debug(&r);
                            let head = concat3("'", binop_name(op), "' needs bool, got ");
                            self.error(concat2(head.as_str(), d.as_str()));
                        }
                        Some(Type::Bool)
                    },
                    BinOp::Eq | BinOp::Neq => Some(Type::Bool),
                    BinOp::Lt | BinOp::Gt | BinOp::Le | BinOp::Ge => {
                        if !type_eq(&l, &r) {
                            let dl = type_debug(&l);
                            let dr = type_debug(&r);
                            let head = concat3("Cannot compare ", dl.as_str(), " with ");
                            self.error(concat2(head.as_str(), dr.as_str()));
                        }
                        Some(Type::Bool)
                    },
                    BinOp::BitAnd | BinOp::BitOr | BinOp::BitXor | BinOp::Shl | BinOp::Shr => Some(Type::Int),
                    _ => {
                        if !type_eq(&l, &r) {
                            let l_num = matches!(l, Type::Int) || matches!(l, Type::Float);
                            let r_num = matches!(r, Type::Int) || matches!(r, Type::Float);
                            if l_num && r_num {
                                Some(Type::Float)
                            } else {
                                let dl = type_debug(&l);
                                let dr = type_debug(&r);
                                let head = concat3("Type mismatch: ", dl.as_str(), " vs ");
                                self.error(concat2(head.as_str(), dr.as_str()));
                                None
                            }
                        } else {
                            Some(l)
                        }
                    },
                }
            },
            _ => None,
        }
    }

    /// The arguments of a call of a known task, warning of sensitive
    /// variables passed to it.
    fn infer_args_of(&mut self, name: &String, args: &Vec<Expr>)
        requires
            wf(old(self)@),
        ensures
            extends(old(self)@, final(self)@),
            final(self)@.vars.len() == old(self)@.vars.len(),
        decreases args, 1int,
    {
        let mut i: usize = 0;
        while i < args.len()
            invariant
                i <= args@.len(),
                extends(old(self)@, self@),
                self@.vars.len() == old(self)@.vars.len(),
            decreases args.len() - i,
        {
            self.infer_type(&args[i]);
            match &args[i] {
                Expr::Identifier(aname) => {
                    if contains_str(&self.sensitive_names, aname.as_str()) {
                        self.warn(concat5("Privacy: sensitive '", aname.as_str(), "' passed to '", name.as_str(), "'"));
                    }
                },
                _ => {},
            }
            i = i + 1;
        }
    }

    fn infer_call(&mut self, expr: &Expr) -> (r: Option<Type>)
        requires
            wf(old(self)@),
            expr is Call,
        ensures
            inferred(old(self)@, final(self)@, expr@, opt_type_view(r)),
            call_name(expr@) matches Some(n) ==> (r matches Some(t) ==> exists|i: int|
                0 <= i < old(self).task_returns@.len() && old(self).task_returns@[i].0@ == n && #[trigger] old(self).task_returns@[i].1@ == t@),
            call_name(expr@) matches Some(n) ==> (r is None ==> forall|i: int|
                0 <= i < old(self).task_returns@.len() ==> #[trigger] old(self).task_returns@[i].0@ != n),
            call_name(expr@) matches Some(n) ==> (strs(old(self).network_fns@).contains(n) && old(self).override_depth == 0 ==> (
                final(self)@.warnings.len() > old(self)@.warnings.len()
                && final(self)@.warnings[old(self)@.warnings.len() as int] == network_msg(n))),
        decreases expr, 0int,
    {
        let (func, args, named) = match expr {
            Expr::Call { func, args, named } => (func, args, named),
            _ => {
                return None;
            },
        };
        match &**func {
            Expr::Identifier(name) => {
                let found = find_named(&self.task_returns, name.as_str());
                let ret = match found {
                    Some(k) => Some(copy_type(&self.task_returns[k].1)),
                    None => None,
                };
                proof {
                    reveal_with_fuel(crate::ast::expr_view, 2);
                    assert(call_name(expr@) == Some(name@));
                    if found is Some {
                        let k = found->0;
                        assert(old(self).task_returns@[k as int].0@ == name@);
                        assert(old(self).task_returns@[k as int].1@ == ret->0@);
                    }
                }
                let ghost w0 = self@.warnings.len();
                if contains_str(&self.network_fns, name.as_str()) && self.override_depth == 0 {
                    self.warn(concat3("Privacy warning: '", name.as_str(), "' is a network function. Use 'override'."));
                    assert(self@.warnings[w0 as int] == network_msg(name@));
                }
                let ghost mid = self@;
                match find_named(&self.task_param_types, name.as_str()) {
                    Some(_) => {
                        self.infer_args_of(name, args);
                        self.infer_named(named);
                    },
                    None => {
                        self.infer_all(args);
                        self.infer_named(named);
                    },
                }
                proof {
                    if mid.warnings.len() > w0 {
                        assert(self@.warnings[w0 as int] == mid.warnings[w0 as int]);
                    }
                }
                ret
            },
            _ => {
                proof {
                    reveal_with_fuel(crate::ast::expr_view, 2);
                    assert(call_name(expr@) is None);
                }
                self.infer_all(args);
                None
            },
        }
    }

    // ── Statements ──────────────────────────────────────────────────────

    fn analyze_block(&mut self, block: &Block)
        requires
            wf(old(self)@),
        ensures
            extends(old(self)@, final(self)@),
            block_spec(old(self)@, block@) matches Some(m) ==> final(self)@ == m,
        decreases block, 1int,
    {
        self.analyze_stmts(&block.statements);
        match &block.tail_expr {
            Some(tail) => {
                self.infer_type(tail);
            },
            None => {},
        }
    }

    /// A block in a scope of its own.
    fn analyze_scoped(&mut self, block: &Block)
        requires
            wf(old(self)@),
        ensures
            extends(old(self)@, final(self)@),
            scoped_spec(old(self)@, block@) matches Some(m) ==> final(self)@ == m,
        decreases block, 2int,
    {
        self.push_scope();
        self.analyze_block(block);
        self.pop_scope();
        proof {
            assert(self@.starts =~= old(self)@.starts);
        }
    }

    /// A loop body, one loop deeper, then the loop's scope closed.
    fn analyze_loop_body(&mut self, block: &Block)
        requires
            wf(old(self)@),
            old(self)@.starts.len() >= 2,
        ensures
            seq_extends(old(self)@.errors, final(self)@.errors),
            seq_extends(old(self)@.warnings, final(self)@.warnings),
            final(self)@.starts =~= old(self)@.starts.drop_last(),
            final(self)@.override_depth == old(self)@.override_depth,
            final(self)@.loop_depth == old(self)@.loop_depth,
            final(self)@.vars.len() == old(self)@.starts.last(),
            wf(final(self)@),
            block_spec(SemState { loop_depth: deeper(old(self)@.loop_depth), ..old(self)@ }, block@) matches Some(m)
                ==> final(self)@ == pop_scope(SemState { loop_depth: old(self)@.loop_depth, ..m }),
        decreases block, 2int,
    {
        let saved = self.enter_loop();
        self.analyze_block(block);
        let ghost inner = self@;
        self.loop_depth = saved;
        proof {
            assert(self@ == SemState { loop_depth: old(self)@.loop_depth, ..inner });
        }
        self.pop_scope();
    }

    /// Checks one statement.
    fn analyze_stmt(&mut self, stmt: &Stmt)
        requires
            wf(old(self)@),
        ensures
            stepped(old(self)@, final(self)@, stmt@),
            misses_return(stmt@) matches Some(n) ==> final(self)@.errors.len() > 0 && final(self)@.errors.last() == not_all_paths_msg(n),
        decreases stmt, 3int,
    {
        match stmt {
            Stmt::StructDecl { .. } | Stmt::EnumDecl { .. } | Stmt::ExternDecl { .. } | Stmt::TypeAlias { .. } => {},
            Stmt::UseDecl { .. } => {},
            Stmt::Import(_) => {},
            Stmt::VarDecl { .. } | Stmt::ConstDecl { .. } | Stmt::MultiAssign { .. } | Stmt::Destructure { .. } => {
                self.analyze_binding(stmt)
            },
            Stmt::Assign { .. } | Stmt::CompoundAssign { .. } | Stmt::FieldAssign { .. } | Stmt::IndexAssign { .. } => {
                self.analyze_assignment(stmt)
            },
            Stmt::NamespaceDecl { .. } | Stmt::Check { .. } | Stmt::Match { .. } | Stmt::Override { .. }
            | Stmt::ConstantTime { .. } | Stmt::Spawn { .. } | Stmt::Defer { .. } => self.analyze_nested(stmt),
            Stmt::TaskDecl { .. } => self.analyze_task(stmt),
            Stmt::Loop { .. } => self.analyze_loop(stmt),
            Stmt::Break | Stmt::Continue => {
                if self.loop_depth == 0 {
                    self.error(String::from_str("'break'/'continue' outside loop"));
                }
            },
            Stmt::Join { handle } => {
                self.infer_type(handle);
            },
            Stmt::Assert { condition, .. } => {
                self.infer_type(condition);
            },
            Stmt::StaticAssert { condition, .. } => {
                self.infer_type(condition);
            },
            Stmt::Purge { variable } => self.analyze_purge(variable),
            Stmt::Free { ptr } => {
                self.infer_type(ptr);
            },
            Stmt::Print(e) => {
                self.infer_type(e);
            },
            Stmt::PrintFmt { args, .. } => {
                self.infer_list(args);
            },
            Stmt::Return(e) => {
                match (&self.current_ret_type, e) {
                    (Some(_), Some(e)) => {
                        self.infer_type(e);
                    },
                    _ => {},
                }
            },
            Stmt::Asm(_) => {
                if self.override_depth == 0 {
                    self.error(String::from_str("'asm' only inside 'override'"));
                }
            },
            Stmt::TestDecl { body, .. } => {
                self.push_scope();
                self.current_ret_type = Some(Type::Void);
                self.analyze_block(body);
                self.pop_scope();
                self.current_ret_type = None;
                proof {
                    assert(self@.starts =~= old(self)@.starts);
                }
            },
            Stmt::ExprStmt(e) => {
                self.infer_type(e);
            },
        }
    }

    /// The statements that declare variables.
    #[verifier::rlimit(50)]
    fn analyze_binding(&mut self, stmt: &Stmt)
        requires
            wf(old(self)@),
            stmt is VarDecl || stmt is ConstDecl || stmt is MultiAssign || stmt is Destructure,
        ensures
            stepped(old(self)@, final(self)@, stmt@),
        decreases stmt, 2int,
    {
        match stmt {
            Stmt::VarDecl { name, ty, value, sensitive } => {
                let inferred = self.infer_type(value);
                let final_ty = match ty {
                    Some(t) => copy_type(t),
                    None => match inferred {
                        Some(t) => t,
                        None => Type::Int,
                    },
                };
                match value {
                    Expr::Identifier(moved) => {
                        let copyable = matches!(final_ty, Type::Int) || matches!(final_ty, Type::Float)
                            || matches!(final_ty, Type::Bool) || matches!(final_ty, Type::Int8)
                            || matches!(final_ty, Type::Int16) || matches!(final_ty, Type::Int64);
                        if !copyable {
                            self.set_var_state(moved.as_str(), VarState::Moved);
                        }
                    },
                    _ => {},
                }
                self.declare_var(name.as_str(), final_ty, false, *sensitive);
            },
            Stmt::ConstDecl { name, value } => {
                let t = match self.infer_type(value) {
                    Some(t) => t,
                    None => Type::Int,
                };
                self.declare_var(name.as_str(), t, true, false);
            },
            Stmt::MultiAssign { names, values } => {
                let ghost nv = crate::ast::strs_view(names@);
                let ghost ev = exprs_view(values@);
                proof {
                    crate::ast::lemma_exprs_view(values@);
                }
                let mut i: usize = 0;
                while i < names.len() && i < values.len()
                    invariant
                        i <= names@.len(),
                        i <= values@.len(),
                        nv == crate::ast::strs_view(names@),
                        ev == exprs_view(values@),
                        ev.len() == values@.len(),
                        forall|j: int| 0 <= j < values@.len() ==> #[trigger] ev[j] == values@[j]@,
                        extends(old(self)@, self@),
                        multi_assign_step(old(self)@, nv, ev, i as int) matches Some(m) ==> self@ == m,
                    decreases names.len() - i,
                {
                    proof {
                        assert(nv[i as int] == names@[i as int]@);
                    }
                    let t = match self.infer_type(&values[i]) {
                        Some(t) => t,
                        None => Type::Int,
                    };
                    if self.lookup_var(names[i].as_str()).is_none() {
                        self.declare_var(names[i].as_str(), t, false, false);
                    }
                    i = i + 1;
                }
            },
            Stmt::Destructure { fields, value, .. } => {
                match self.infer_type(value) {
                    Some(Type::Struct(sname)) => {
                        match find_named(&self.struct_fields, sname.as_str()) {
                            Some(k) => {
                                let sf = copy_typed_names(&self.struct_fields[k].1);
                                let mut i: usize = 0;
                                while i < fields.len()
                                    invariant
                                        extends(old(self)@, self@),
                                    decreases fields.len() - i,
                                {
                                    match find_named(&sf, fields[i].as_str()) {
                                        Some(f) => {
                                            let ft = copy_type(&sf[f].1);
                                            self.declare_var(fields[i].as_str(), ft, false, false);
                                        },
                                        None => {},
                                    }
                                    i = i + 1;
                                }
                            },
                            None => {},
                        }
                    },
                    _ => {},
                }
            },
            _ => {},
        }
    }

    /// The statements that assign to existing variables.
    #[verifier::rlimit(50)]
    fn analyze_assignment(&mut self, stmt: &Stmt)
        requires
            wf(old(self)@),
            stmt is Assign || stmt is CompoundAssign || stmt is FieldAssign || stmt is IndexAssign,
        ensures
            stepped(old(self)@, final(self)@, stmt@),
        decreases stmt, 2int,
    {
        match stmt {
            Stmt::Assign { name, value } => {
                match self.lookup_var(name.as_str()) {
                    Some(i) => {
                        if self.vars[i].1.is_const {
                            self.error(concat3("Cannot assign to const '", name.as_str(), "'"));
                            return;
                        }
                        let state = self.vars[i].1.state;
                        if state == VarState::Moved {
                            self.error(concat3("'", name.as_str(), "' was moved"));
                        }
                        if state == VarState::Purged {
                            self.error(concat3("'", name.as_str(), "' was purged"));
                        }
                        self.infer_type(value);
                    },
                    None => {
                        self.error(concat3("'", name.as_str(), "' not defined. Use 'set'."));
                    },
                }
            },
            Stmt::CompoundAssign { name, value, .. } => {
                if self.lookup_var(name.as_str()).is_none() {
                    self.error(concat3("'", name.as_str(), "' not defined"));
                }
                self.infer_type(value);
            },
            Stmt::FieldAssign { object, field, value } => {
                match self.lookup_var(object.as_str()) {
                    Some(i) => {
                        let vt = copy_type(&self.vars[i].1.var_type);
                        proof {
                            assert(vt@ == self@.vars[i as int].1.ty);
                        }
                        match vt {
                            Type::Struct(sname) => {
                                match find_named(&self.struct_fields, sname.as_str()) {
                                    Some(k) => {
                                        match find_named(&self.struct_fields[k].1, field.as_str()) {
                                            Some(_) => {
                                                self.infer_type(value);
                                            },
                                            None => {
                                                self.error(concat5("No field '", field.as_str(), "' in '", sname.as_str(), "'"));
                                            },
                                        }
                                    },
                                    None => {},
                                }
                            },
                            _ => {
                                self.error(concat3("'", object.as_str(), "' is not a struct"));
                            },
                        }
                    },
                    None => {
                        self.error(concat3("'", object.as_str(), "' not defined"));
                    },
                }
            },
            Stmt::IndexAssign { array, index, value } => {
                self.infer_type(index);
                self.infer_type(value);
                if self.lookup_var(array.as_str()).is_none() {
                    self.error(concat3("'", array.as_str(), "' not defined"));
                }
            },
            _ => {},
        }
    }

    /// The statements with nested blocks or statements, but loops and tasks.
    #[verifier::rlimit(50)]
    fn analyze_nested(&mut self, stmt: &Stmt)
        requires
            wf(old(self)@),
            stmt is NamespaceDecl || stmt is Check || stmt is Match || stmt is Override || stmt is ConstantTime
                || stmt is Spawn || stmt is Defer,
        ensures
            stepped(old(self)@, final(self)@, stmt@),
        decreases stmt, 2int,
    {
        match stmt {
            Stmt::NamespaceDecl { body, .. } => {
                self.push_scope();
                self.analyze_stmts(body);
                self.pop_scope();
                proof {
                    assert(self@.starts =~= old(self)@.starts);
                }
            },
            Stmt::Check { condition, then_block, else_block } => {
                self.infer_type(condition);
                self.analyze_scoped(then_block);
                match else_block {
                    Some(eb) => self.analyze_scoped(eb),
                    None => {},
                }
            },
            Stmt::Match { value, arms } => {
                self.infer_type(value);
                self.analyze_arms(arms);
            },
            Stmt::Override { body } => {
                let saved = self.enter_override();
                self.analyze_scoped(body);
                self.override_depth = saved;
            },
            Stmt::ConstantTime { body } => {
                let saved = self.constant_time_depth;
                self.constant_time_depth = if saved < usize::MAX { saved + 1 } else { saved };
                self.analyze_scoped(body);
                self.constant_time_depth = saved;
            },
            Stmt::Spawn { body, .. } => self.analyze_scoped(body),
            Stmt::Defer { body } => self.analyze_scoped(body),
            _ => {},
        }
    }

    fn analyze_stmts(&mut self, v: &Vec<Stmt>)
        requires
            wf(old(self)@),
        ensures
            extends(old(self)@, final(self)@),
            stmts_spec(old(self)@, stmts_view(v@)) matches Some(m) ==> final(self)@ == m,
            missing_returns_reported(final(self)@, stmts_view(v@)),
        decreases v, 0int,
    {
        let mut i: usize = 0;
        proof {
            assert(v@.take(0) =~= Seq::<Stmt>::empty());
        }
        while i < v.len()
            invariant
                i <= v@.len(),
                extends(old(self)@, self@),
                stmts_spec(old(self)@, stmts_view(v@.take(i as int))) matches Some(m) ==> self@ == m,
                missing_returns_reported(self@, stmts_view(v@.take(i as int))),
            decreases v.len() - i,
        {
            let ghost before = self@;
            proof {
                lemma_stmts_view_push(v@.take(i as int), v@[i as int]);
                assert(v@.take(i as int).push(v@[i as int]) =~= v@.take(i + 1));
                let ss = stmts_view(v@.take(i + 1));
                assert(ss.drop_last() == stmts_view(v@.take(i as int)));
            }
            self.analyze_stmt(&v[i]);
            proof {
                lemma_reported_step(before, self@, stmts_view(v@.take(i as int)), v@[i as int]@);
            }
            i = i + 1;
        }
        proof {
            assert(v@.take(v@.len() as int) =~= v@);
        }
    }

    /// Each arm in a scope of its own, with its pattern's bindings.
    fn analyze_arms(&mut self, arms: &Vec<crate::ast::MatchArm>)
        requires
            wf(old(self)@),
        ensures
            extends(old(self)@, final(self)@),
            arms_spec(old(self)@, crate::ast::arms_view(arms@)) matches Some(m) ==> final(self)@ == m,
        decreases arms, 0int,
    {
        let mut i: usize = 0;
        proof {
            assert(arms@.take(0) =~= Seq::<crate::ast::MatchArm>::empty());
        }
        while i < arms.len()
            invariant
                i <= arms@.len(),
                extends(old(self)@, self@),
                arms_spec(old(self)@, crate::ast::arms_view(arms@.take(i as int))) matches Some(m) ==> self@ == m,
            decreases arms.len() - i,
        {
            proof {
                crate::ast::lemma_arms_view_push(arms@.take(i as int), arms@[i as int]);
                assert(arms@.take(i as int).push(arms@[i as int]) =~= arms@.take(i + 1));
                let av = crate::ast::arms_view(arms@.take(i + 1));
                assert(av.drop_last() == crate::ast::arms_view(arms@.take(i as int)));
            }
            let ghost before = self@;
            let ghost bs = pattern_bindings(crate::ast::pattern_view(arms@[i as int].pattern));
            self.push_scope();
            match &arms[i].pattern {
                Pattern::EnumVariantCapture { bindings, .. } => {
                    let mut k: usize = 0;
                    proof {
                        assert(bs == crate::ast::strs_view(bindings@));
                        assert(bs.take(0) =~= Seq::<Seq<char>>::empty());
                    }
                    while k < bindings.len()
                        invariant
                            k <= bindings@.len(),
                            bs == crate::ast::strs_view(bindings@),
                            extends(push_scope(before), self@),
                            self@ == declare_ints(push_scope(before), bs.take(k as int)),
                        decreases bindings.len() - k,
                    {
                        proof {
                            assert(bs.take(k + 1).drop_last() =~= bs.take(k as int));
                            assert(bs.take(k + 1).last() == bindings@[k as int]@);
                        }
                        self.declare_var(bindings[k].as_str(), Type::Int, false, false);
                        k = k + 1;
                    }
                    proof {
                        assert(bs.take(bindings@.len() as int) =~= bs);
                    }
                },
                _ => {
                    proof {
                        assert(bs =~= Seq::<Seq<char>>::empty());
                    }
                },
            }
            self.analyze_block(&arms[i].body);
            self.pop_scope();
            proof {
                assert(self@.starts =~= before.starts);
            }
            i = i + 1;
        }
        proof {
            assert(arms@.take(arms@.len() as int) =~= arms@);
        }
    }

    fn analyze_purge(&mut self, variable: &String)
        requires
            wf(old(self)@),
        ensures
            final(self)@ == purge_step(old(self)@, variable@),
            extends(old(self)@, final(self)@),
    {
        match self.lookup_var(variable.as_str()) {
            Some(i) => {
                if self.vars[i].1.is_const {
                    self.error(concat3("Cannot purge const '", variable.as_str(), "'"));
                    return;
                }
            },
            None => {},
        }
        let t = self.check_usable(variable.as_str());
        if t.is_some() {
            self.set_var_state(variable.as_str(), VarState::Purged);
        }
    }

    fn analyze_task(&mut self, stmt: &Stmt)
        requires
            wf(old(self)@),
            stmt is TaskDecl,
        ensures
            stepped(old(self)@, final(self)@, stmt@),
            misses_return(stmt@) matches Some(n) ==> final(self)@.errors.len() > 0 && final(self)@.errors.last() == not_all_paths_msg(n),
        decreases stmt, 2int,
    {
        match stmt {
            Stmt::TaskDecl { name, params, body, return_type, type_params, .. } => {
                let saved = match &self.current_ret_type {
                    Some(t) => Some(copy_type(t)),
                    None => None,
                };
                let saved_name = match &self.current_task_name {
                    Some(n) => Some(n.clone()),
                    None => None,
                };
                let ghost m = old(self)@;
                let ghost tps = crate::ast::strs_view(type_params@);
                let ghost ps = crate::ast::typed_names_view(params@);
                self.current_ret_type = Some(copy_type(return_type));
                self.current_task_name = Some(name.clone());
                proof {
                    assert(self@ == SemState { in_task: true, ..m });
                }
                self.push_scope();
                let ghost m0 = self@;
                let mut i: usize = 0;
                proof {
                    assert(tps.take(0) =~= Seq::<Seq<char>>::empty());
                }
                while i < type_params.len()
                    invariant
                        i <= type_params@.len(),
                        tps == crate::ast::strs_view(type_params@),
                        m0 == push_scope(SemState { in_task: true, ..m }),
                        extends(m0, self@),
                        self@ == declare_generics(m0, tps.take(i as int)),
                    decreases type_params.len() - i,
                {
                    proof {
                        assert(tps.take(i + 1).drop_last() =~= tps.take(i as int));
                        assert(tps.take(i + 1).last() == type_params@[i as int]@);
                    }
                    self.declare_var(type_params[i].as_str(), Type::Generic(type_params[i].clone()), true, false);
                    i = i + 1;
                }
                proof {
                    assert(tps.take(type_params@.len() as int) =~= tps);
                }
                let ghost m1 = self@;
                let mut i: usize = 0;
                proof {
                    assert(ps.take(0) =~= Seq::<(Seq<char>, SpecType)>::empty());
                }
                while i < params.len()
                    invariant
                        i <= params@.len(),
                        ps == crate::ast::typed_names_view(params@),
                        m1 == declare_generics(m0, tps),
                        m0 == push_scope(SemState { in_task: true, ..m }),
                        extends(m0, self@),
                        self@ == declare_typed(m1, ps.take(i as int)),
                    decreases params.len() - i,
                {
                    proof {
                        assert(ps.take(i + 1).drop_last() =~= ps.take(i as int));
                        assert(ps.take(i + 1).last() == (params@[i as int].0@, type_view(params@[i as int].1)));
                    }
                    self.declare_var(params[i].0.as_str(), copy_type(&params[i].1), false, false);
                    i = i + 1;
                }
                proof {
                    assert(ps.take(params@.len() as int) =~= ps);
                }
                self.analyze_block(body);
                if !matches!(return_type, Type::Void) && !block_always_returns(body) {
                    self.error(concat3("Task '", name.as_str(), "': not all code paths return a value"));
                }
                self.check_dead_code(body);
                self.pop_scope();
                self.current_ret_type = saved;
                proof {
                    assert(self@.starts =~= m.starts);
                }
                self.current_task_name = saved_name;
            },
            _ => {},
        }
    }

    #[verifier::rlimit(50)]
    fn analyze_loop(&mut self, stmt: &Stmt)
        requires
            wf(old(self)@),
            stmt is Loop,
        ensures
            stepped(old(self)@, final(self)@, stmt@),
        decreases stmt, 2int,
    {
        match stmt {
            Stmt::Loop { kind, body } => {
                match kind {
                    LoopKind::FromTo { var, from, to } => {
                        self.infer_type(from);
                        self.infer_type(to);
                        self.push_scope();
                        self.declare_var(var.as_str(), Type::Int, false, false);
                        self.analyze_loop_body(body);
                    },
                    LoopKind::ForEach { var, iterable } => {
                        let elem_ty = match self.infer_type(iterable) {
                            Some(Type::Array(inner)) => *inner,
                            Some(Type::Slice(inner)) => *inner,
                            _ => Type::Int,
                        };
                        self.push_scope();
                        self.declare_var(var.as_str(), elem_ty, false, false);
                        self.analyze_loop_body(body);
                    },
                    LoopKind::Range { var, range } => {
                        self.infer_type(range);
                        self.push_scope();
                        self.declare_var(var.as_str(), Type::Int, false, false);
                        self.analyze_loop_body(body);
                    },
                    LoopKind::Times(e) => {
                        self.infer_type(e);
                        self.push_scope();
                        self.analyze_loop_body(body);
                    },
                    LoopKind::While(e) => {
                        self.infer_type(e);
                        self.push_scope();
                        self.analyze_loop_body(body);
                    },
                    LoopKind::Infinite => {
                        self.push_scope();
                        self.analyze_loop_body(body);
                    },
                }
                proof {
                    assert(self@.starts =~= old(self)@.starts);
                }
            },
            _ => {},
        }
    }

    fn check_dead_code(&mut self, block: &Block)
        ensures
            final(self)@ == if has_dead_code(stmts_view(block.statements@)) {
                add_warning(old(self)@, dead_code_msg())
            } else {
                old(self)@
            },
    {
        let ghost ss = stmts_view(block.statements@);
        proof {
            crate::ast::lemma_stmts_view(block.statements@);
        }
        let mut found_terminator = false;
        let mut i: usize = 0;
        while i < block.statements.len()
            invariant
                i <= block.statements@.len(),
                ss == stmts_view(block.statements@),
                ss.len() == block.statements@.len(),
                forall|j: int| 0 <= j < block.statements@.len() ==> #[trigger] ss[j] == block.statements@[j]@,
                self@ == old(self)@,
                found_terminator ==> i >= 1 && is_terminator(ss[i - 1]),
                forall|j: int| 0 <= j < i - (if found_terminator { 1int } else { 0int }) ==> !#[trigger] is_terminator(ss[j]),
            decreases block.statements.len() - i,
        {
            proof {
                assert(ss[i as int] == block.statements@[i as int]@);
            }
            if found_terminator {
                proof {
                    assert(is_terminator(ss[i - 1]));
                    assert(has_dead_code(ss));
                }
                self.warn(String::from_str("Unreachable code after return/break"));
                return;
            }
            match &block.statements[i] {
                Stmt::Return(_) | Stmt::Break | Stmt::Continue => {
                    found_terminator = true;
                },
                _ => {},
            }
            i = i + 1;
        }
        proof {
            assert forall|j: int| 0 <= j < ss.len() - 1 implies !#[trigger] is_terminator(ss[j]) by {}
        }
    }
}

/// Every path through the block ends in `return`: one of its statements
/// always returns.
pub open spec fn block_returns(b: crate::ast::SpecBlock) -> bool
    decreases b, 1int,
{
    stmts_return(b.statements)
}

pub open spec fn stmts_return(ss: Seq<SpecStmt>) -> bool
    decreases ss, 0int,
{
    if ss.len() == 0 {
        false
    } else {
        stmts_return(ss.drop_last()) || stmt_returns(ss.last())
    }
}

/// A `return`; a `check` whose both branches return; an endless loop whose
/// body returns; a `match` with arms, each of which returns.
pub open spec fn stmt_returns(s: SpecStmt) -> bool
    decreases s, 0int,
{
    match s {
        SpecStmt::Return(_) => true,
        SpecStmt::Check { then_block, else_block, .. } => match else_block {
            Some(eb) => block_returns(then_block) && block_returns(eb),
            None => false,
        },
        SpecStmt::Loop { kind, body } => kind is Infinite && block_returns(body),
        SpecStmt::Match { arms, .. } => arms.len() > 0 && arms_return(arms),
        _ => false,
    }
}

pub open spec fn arms_return(arms: Seq<crate::ast::SpecMatchArm>) -> bool
    decreases arms, 0int,
{
    if arms.len() == 0 {
        true
    } else {
        arms_return(arms.drop_last()) && block_returns(arms.last().body)
    }
}

proof fn lemma_stmts_return_prefix(ss: Seq<SpecStmt>, k: int)
    requires
        0 <= k <= ss.len(),
        stmts_return(ss.take(k)),
    ensures
        stmts_return(ss),
    decreases ss.len() - k,
{
    if k == ss.len() {
        assert(ss.take(k) =~= ss);
    } else {
        assert(ss.take(k + 1).drop_last() =~= ss.take(k));
        lemma_stmts_return_prefix(ss, k + 1);
    }
}

proof fn lemma_arms_return_prefix(arms: Seq<crate::ast::SpecMatchArm>, k: int)
    requires
        0 <= k <= arms.len(),
        !arms_return(arms.take(k)),
    ensures
        !arms_return(arms),
    decreases arms.len() - k,
{
    if k == arms.len() {
        assert(arms.take(k) =~= arms);
    } else {
        assert(arms.take(k + 1).drop_last() =~= arms.take(k));
        lemma_arms_return_prefix(arms, k + 1);
    }
}

/// Whether every path through the block ends in `return`.
pub fn block_always_returns(block: &Block) -> (r: bool)
    ensures
        r == block_returns(block@),
    decreases block, 1int,
{
    let ghost ss = stmts_view(block.statements@);
    let mut i: usize = 0;
    proof {
        assert(block.statements@.take(0) =~= Seq::<Stmt>::empty());
    }
    while i < block.statements.len()
        invariant
            i <= block.statements@.len(),
            ss == stmts_view(block.statements@),
            !stmts_return(stmts_view(block.statements@.take(i as int))),
        decreases block.statements.len() - i,
    {
        proof {
            lemma_stmts_view_push(block.statements@.take(i as int), block.statements@[i as int]);
            assert(block.statements@.take(i as int).push(block.statements@[i as int]) =~= block.statements@.take(i + 1));
            let pre = stmts_view(block.statements@.take(i + 1));
            assert(pre.drop_last() == stmts_view(block.statements@.take(i as int)));
        }
        if stmt_always_returns(&block.statements[i]) {
            proof {
                crate::ast::lemma_stmts_view(block.statements@);
                lemma_stmts_view_take(block.statements@, i + 1);
                lemma_stmts_return_prefix(ss, i + 1);
            }
            return true;
        }
        i = i + 1;
    }
    proof {
        assert(block.statements@.take(block.statements@.len() as int) =~= block.statements@);
    }
    false
}

proof fn lemma_stmts_view_take(v: Seq<Stmt>, i: int)
    requires
        0 <= i <= v.len(),
    ensures
        stmts_view(v.take(i)) == stmts_view(v).take(i),
    decreases v.len(),
{
    crate::ast::lemma_stmts_view(v);
    if i < v.len() {
        assert(v.drop_last().take(i) =~= v.take(i));
        lemma_stmts_view_take(v.drop_last(), i);
        crate::ast::lemma_stmts_view(v.drop_last());
        assert(stmts_view(v).drop_last() =~= stmts_view(v.drop_last()));
        assert(stmts_view(v).take(i) =~= stmts_view(v.drop_last()).take(i));
    } else {
        assert(v.take(i) =~= v);
        assert(stmts_view(v).take(i) =~= stmts_view(v));
    }
}

fn stmt_always_returns(stmt: &Stmt) -> (r: bool)
    ensures
        r == stmt_returns(stmt@),
    decreases stmt, 1int,
{
    match stmt {
        Stmt::Return(_) => true,
        Stmt::Check { then_block, else_block: Some(eb), .. } => block_always_returns(then_block) && block_always_returns(eb),
        Stmt::Loop { kind: LoopKind::Infinite, body } => block_always_returns(body),
        Stmt::Match { arms, .. } => arms.len() > 0 && arms_always_return(arms),
        _ => false,
    }
}

fn arms_always_return(arms: &Vec<crate::ast::MatchArm>) -> (r: bool)
    ensures
        r == arms_return(crate::ast::arms_view(arms@)),
    decreases arms, 1int,
{
    let mut i: usize = 0;
    proof {
        assert(arms@.take(0) =~= Seq::<crate::ast::MatchArm>::empty());
    }
    while i < arms.len()
        invariant
            i <= arms@.len(),
            arms_return(crate::ast::arms_view(arms@.take(i as int))),
        decreases arms.len() - i,
    {
        proof {
            crate::ast::lemma_arms_view_push(arms@.take(i as int), arms@[i as int]);
            assert(arms@.take(i as int).push(arms@[i as int]) =~= arms@.take(i + 1));
            let av = crate::ast::arms_view(arms@.take(i + 1));
            assert(av.drop_last() == crate::ast::arms_view(arms@.take(i as int)));
        }
        if !block_always_returns(&arms[i].body) {
            proof {
                lemma_arms_view_take(arms@, i + 1);
                lemma_arms_return_prefix(crate::ast::arms_view(arms@), i + 1);
            }
            return false;
        }
        i = i + 1;
    }
    proof {
        assert(arms@.take(arms@.len() as int) =~= arms@);
    }
    true
}

proof fn lemma_arms_view_take(v: Seq<crate::ast::MatchArm>, i: int)
    requires
        0 <= i <= v.len(),
    ensures
        crate::ast::arms_view(v.take(i)) == crate::ast::arms_view(v).take(i),
        crate::ast::arms_view(v).len() == v.len(),
    decreases v.len(),
{
    if v.len() > 0 {
        lemma_arms_view_take(v.drop_last(), if i < v.len() { i } else { 0 });
    }
    if i < v.len() {
        assert(v.drop_last().take(i) =~= v.take(i));
        lemma_arms_view_take(v.drop_last(), i);
        assert(crate::ast::arms_view(v).drop_last() =~= crate::ast::arms_view(v.drop_last()));
        assert(crate::ast::arms_view(v).take(i) =~= crate::ast::arms_view(v.drop_last()).take(i));
    } else {
        assert(v.take(i) =~= v);
        assert(crate::ast::arms_view(v).take(i) =~= crate::ast::arms_view(v));
    }
}

// ── Laws ────────────────────────────────────────────────────────────────

/// Reading a variable after purging it reports that it was purged.
pub proof fn law_read_after_purge(m: SemState, x: Seq<char>)
    requires
        binding(m.vars, x) >= 0,
        binding(m.vars, x) < m.vars.len(),
        !m.vars[binding(m.vars, x)].1.is_const,
        m.vars[binding(m.vars, x)].1.state == VarState::Live,
    ensures
        usable(purge_step(m, x), x).0.errors == purge_step(m, x).errors.push(purged_msg(x)),
        usable(purge_step(m, x), x).1 is None,
{
    let i = binding(m.vars, x);
    lemma_binding_update(m.vars, x, (x, SemVar { used: true, ..m.vars[i].1 }));
    let m1 = mark_used(m, x);
    lemma_binding_update(m1.vars, x, (x, SemVar { state: VarState::Purged, ..m1.vars[i].1 }));
    let m2 = purge_step(m, x);
    lemma_binding_update(m2.vars, x, (x, SemVar { used: true, ..m2.vars[i].1 }));
}

/// The statements `purge x` then `print x`, on a live variable `x`: the
/// print reports that `x` was purged, and adds no other error.
#[verifier::rlimit(100)]
#[verifier::spinoff_prover]
pub proof fn law_print_after_purge(m: SemState, x: Seq<char>)
    requires
        binding(m.vars, x) >= 0,
        !m.vars[binding(m.vars, x)].1.is_const,
        m.vars[binding(m.vars, x)].1.state == VarState::Live,
    ensures
        stmts_spec(m, seq![SpecStmt::Purge { variable: x }, SpecStmt::Print(SpecExpr::Identifier(x))]) matches Some(m2)
            && m2.errors == purge_step(m, x).errors.push(purged_msg(x)),
        purge_step(m, x).errors == m.errors,
{
    lemma_binding_range(m.vars, x);
    law_read_after_purge(m, x);
    let ss = seq![SpecStmt::Purge { variable: x }, SpecStmt::Print(SpecExpr::Identifier(x))];
    assert(ss.drop_last() =~= seq![SpecStmt::Purge { variable: x }]);
    assert(ss.drop_last().drop_last() =~= Seq::<SpecStmt>::empty());
    let p = purge_step(m, x);
    let s1 = ss.drop_last();
    assert(s1.len() == 1);
    assert(s1.last() == SpecStmt::Purge { variable: x });
    assert(stmts_spec(m, s1.drop_last()) == Some(m));
    assert(stmt_spec(m, SpecStmt::Purge { variable: x }) == Some(p));
    assert(stmts_spec(m, s1) == Some(p));
    assert(ss.last() == SpecStmt::Print(SpecExpr::Identifier(x)));
    assert(infer_spec(p, SpecExpr::Identifier(x)) == Some(usable(p, x)));
    assert(stmt_spec(p, SpecStmt::Print(SpecExpr::Identifier(x))) == Some(usable(p, x).0));
    assert(stmts_spec(m, ss) == Some(usable(p, x).0));
    let i = binding(m.vars, x);
    lemma_binding_update(m.vars, x, (x, SemVar { used: true, ..m.vars[i].1 }));
}

/// `set y = x` moves a variable `x` whose type is not copyable; printing
/// `x` afterwards reports that it was moved, and that is the one error.
#[verifier::rlimit(100)]
#[verifier::spinoff_prover]
pub proof fn law_use_after_move(m: SemState, x: Seq<char>, y: Seq<char>)
    requires
        wf(m),
        binding(m.vars, x) >= 0,
        m.vars[binding(m.vars, x)].1.state == VarState::Live,
        !copyable(m.vars[binding(m.vars, x)].1.ty),
        x != y,
        !in_top_scope(m, y),
    ensures
        stmts_spec(m, seq![
            SpecStmt::VarDecl { name: y, ty: None, value: SpecExpr::Identifier(x), sensitive: false },
            SpecStmt::Print(SpecExpr::Identifier(x)),
        ]) matches Some(m2) && m2.errors == m.errors.push(moved_msg(x)),
{
    lemma_binding_range(m.vars, x);
    let i = binding(m.vars, x);
    let t = m.vars[i].1.ty;
    let m1 = mark_used(m, x);
    lemma_binding_update(m.vars, x, (x, SemVar { used: true, ..m.vars[i].1 }));
    assert(usable(m, x) == (m1, Some(t)));
    let m2 = set_var_state(m1, x, VarState::Moved);
    lemma_binding_update(m1.vars, x, (x, SemVar { state: VarState::Moved, ..m1.vars[i].1 }));
    assert(m2.vars.len() == m.vars.len());
    assert(m2.starts == m.starts);
    assert forall|k: int| 0 <= k < m2.vars.len() implies #[trigger] m2.vars[k].0 == m.vars[k].0 by {}
    assert(!in_top_scope(m2, y));
    let v = SemVar { ty: t, state: VarState::Live, is_const: false, used: false };
    let m3 = declare(m2, y, t, false);
    assert(m3.vars == m2.vars.push((y, v)));
    assert(m3.vars.drop_last() =~= m2.vars);
    assert(binding(m3.vars, x) == i);
    assert(m3.vars[i].1.state == VarState::Moved);
    let d = SpecStmt::VarDecl { name: y, ty: None, value: SpecExpr::Identifier(x), sensitive: false };
    let pr = SpecStmt::Print(SpecExpr::Identifier(x));
    assert(infer_spec(m, SpecExpr::Identifier(x)) == Some((m1, Some(t))));
    assert(var_decl_step(m, y, None, SpecExpr::Identifier(x)) == Some(m3));
    assert(stmt_spec(m, d) == Some(m3));
    let ss = seq![d, pr];
    let s1 = ss.drop_last();
    assert(s1.len() == 1);
    assert(s1.last() == d);
    assert(stmts_spec(m, s1.drop_last()) == Some(m));
    assert(stmts_spec(m, s1) == Some(m3));
    assert(ss.last() == pr);
    let m4 = mark_used(m3, x);
    lemma_binding_update(m3.vars, x, (x, SemVar { used: true, ..m3.vars[i].1 }));
    assert(usable(m3, x).0 == add_error(m4, moved_msg(x)));
    assert(infer_spec(m3, SpecExpr::Identifier(x)) == Some(usable(m3, x)));
    assert(stmt_spec(m3, pr) == Some(usable(m3, x).0));
    assert(stmts_spec(m, ss) == Some(usable(m3, x).0));
}

/// Declaring the same name twice in one scope reports the second one, and
/// leaves the variables as they were.
pub proof fn law_redeclare(m: SemState, x: Seq<char>, t1: SpecType, t2: SpecType)
    requires
        wf(m),
        !in_top_scope(m, x),
    ensures
        declare(declare(m, x, t1, false), x, t2, false).errors == m.errors.push(redeclared_msg(x)),
        declare(declare(m, x, t1, false), x, t2, false).vars == declare(m, x, t1, false).vars,
{
    let m1 = declare(m, x, t1, false);
    assert(m1.vars[m.vars.len() as int].0 == x);
    assert(m1.starts.last() <= m.vars.len());
    assert(in_top_scope(m1, x));
}

/// A variable declared in a scope and never read is warned of when the
/// scope closes.
pub proof fn law_unused_warned(m: SemState, x: Seq<char>, t: SpecType)
    requires
        wf(m),
        !in_top_scope(push_scope(m), x),
    ensures
        pop_scope(declare(push_scope(m), x, t, false)).warnings == m.warnings.push(unused_msg(x)),
{
    let m1 = push_scope(m);
    let m2 = declare(m1, x, t, false);
    let s = m1.starts.last();
    assert(s == m.vars.len());
    assert(m2.vars.len() == s + 1);
    assert(unused_warnings(m2.vars, s, s) =~= Seq::<Seq<char>>::empty());
    assert(unused_warnings(m2.vars, s, s + 1) =~= seq![unused_msg(x)]);
    assert(m.warnings + seq![unused_msg(x)] =~= m.warnings.push(unused_msg(x)));
}

proof fn lemma_binding_range(vars: Seq<(Seq<char>, SemVar)>, x: Seq<char>)
    ensures
        -1 <= binding(vars, x) < vars.len(),
        binding(vars, x) >= 0 ==> vars[binding(vars, x)].0 == x,
    decreases vars.len(),
{
    if vars.len() > 0 && vars.last().0 != x {
        lemma_binding_range(vars.drop_last(), x);
    }
}

proof fn lemma_binding_update(vars: Seq<(Seq<char>, SemVar)>, x: Seq<char>, e: (Seq<char>, SemVar))
    requires
        0 <= binding(vars, x) < vars.len(),
        e.0 == x,
    ensures
        binding(vars.update(binding(vars, x), e), x) == binding(vars, x),
        0 <= binding(vars, x) < vars.len(),
        vars[binding(vars, x)].0 == x,
    decreases vars.len(),
{
    let i = binding(vars, x);
    let u = vars.update(i, e);
    lemma_binding_range(vars, x);
    if vars.last().0 == x {
        assert(u.last() == e);
    } else {
        lemma_binding_range(vars.drop_last(), x);
        assert(u.drop_last() =~= vars.drop_last().update(i, e));
        lemma_binding_update(vars.drop_last(), x, e);
    }
}


/// An arithmetic operator (`+ - * / %`) on operands whose types are known,
/// different and not both numbers (`Int`, `Float`) is a type error: reading
/// `left op right` reports "Type mismatch: <left type> vs <right type>"
/// after whatever reading the operands reported, and gives no type. Equal
/// operand types give that type, and `Int` with `Float` gives `Float`,
/// with nothing reported.
pub proof fn law_arithmetic_operand_types(m: SemState, left: SpecExpr, op: BinOp, right: SpecExpr, m1: SemState, l: SpecType, m2: SemState, r: SpecType)
    requires
        op == BinOp::Add || op == BinOp::Sub || op == BinOp::Mul || op == BinOp::Div || op == BinOp::Mod,
        infer_spec(m, left) == Some((m1, Some(l))),
        infer_spec(m1, right) == Some((m2, Some(r))),
    ensures
        l != r && !((l == SpecType::Int || l == SpecType::Float) && (r == SpecType::Int || r == SpecType::Float)) ==> infer_spec(
            m,
            SpecExpr::BinaryOp { left: Box::new(left), op, right: Box::new(right) },
        ) == Some((SemState { errors: m2.errors.push("Type mismatch: "@ + debug_of(l) + " vs "@ + debug_of(r)), ..m2 }, None::<SpecType>)),
        l == r ==> infer_spec(m, SpecExpr::BinaryOp { left: Box::new(left), op, right: Box::new(right) }) == Some((m2, Some(l))),
        l != r && (l == SpecType::Int || l == SpecType::Float) && (r == SpecType::Int || r == SpecType::Float) ==> infer_spec(
            m,
            SpecExpr::BinaryOp { left: Box::new(left), op, right: Box::new(right) },
        ) == Some((m2, Some(SpecType::Float))),
{
    let e = SpecExpr::BinaryOp { left: Box::new(left), op, right: Box::new(right) };
    assert(infer_spec(m, e) == Some(binary_result(m2, op, Some(l), Some(r))));
}

/// `and` / `or` want booleans: reading `left op right` with known operand
/// types reports "'And' needs bool, got <type>" (or `'Or'`) for the left
/// operand and then for the right one when it is not `Bool`, and gives
/// `Bool` either way.
pub proof fn law_logical_operand_types(m: SemState, left: SpecExpr, op: BinOp, right: SpecExpr, m1: SemState, l: SpecType, m2: SemState, r: SpecType)
    requires
        op == BinOp::And || op == BinOp::Or,
        infer_spec(m, left) == Some((m1, Some(l))),
        infer_spec(m1, right) == Some((m2, Some(r))),
    ensures
        ({
            let name = if op == BinOp::And { "And"@ } else { "Or"@ };
            let el = if l != SpecType::Bool { seq!["'"@ + name + "' needs bool, got "@ + debug_of(l)] } else { Seq::empty() };
            let er = if r != SpecType::Bool { seq!["'"@ + name + "' needs bool, got "@ + debug_of(r)] } else { Seq::empty() };
            infer_spec(m, SpecExpr::BinaryOp { left: Box::new(left), op, right: Box::new(right) }) == Some((
                SemState { errors: m2.errors + el + er, ..m2 },
                Some(SpecType::Bool),
            ))
        }),
{
    let name = if op == BinOp::And { "And"@ } else { "Or"@ };
    assert(binop_debug(op) == name);
    let el = if l != SpecType::Bool { seq!["'"@ + name + "' needs bool, got "@ + debug_of(l)] } else { Seq::empty() };
    let er = if r != SpecType::Bool { seq!["'"@ + name + "' needs bool, got "@ + debug_of(r)] } else { Seq::empty() };
    let res = binary_result(m2, op, Some(l), Some(r));
    assert(res.0.errors =~= m2.errors + el + er);
    assert(res.0 =~= SemState { errors: m2.errors + el + er, ..m2 });
}

/// Ordering comparisons (`< > <= >=`) want operands of one type: with known
/// types that differ, reading `left op right` reports "Cannot compare
/// <left type> with <right type>"; the result is `Bool` either way.
/// `==` and `!=` report nothing and give `Bool`.
pub proof fn law_comparison_operand_types(m: SemState, left: SpecExpr, op: BinOp, right: SpecExpr, m1: SemState, l: SpecType, m2: SemState, r: SpecType)
    requires
        infer_spec(m, left) == Some((m1, Some(l))),
        infer_spec(m1, right) == Some((m2, Some(r))),
    ensures
        (op == BinOp::Lt || op == BinOp::Gt || op == BinOp::Le || op == BinOp::Ge) ==> infer_spec(
            m,
            SpecExpr::BinaryOp { left: Box::new(left), op, right: Box::new(right) },
        ) == Some((
            if l != r { SemState { errors: m2.errors.push("Cannot compare "@ + debug_of(l) + " with "@ + debug_of(r)), ..m2 } } else { m2 },
            Some(SpecType::Bool),
        )),
        (op == BinOp::Eq || op == BinOp::Neq) ==> infer_spec(m, SpecExpr::BinaryOp { left: Box::new(left), op, right: Box::new(right) })
            == Some((m2, Some(SpecType::Bool))),
{
    let e = SpecExpr::BinaryOp { left: Box::new(left), op, right: Box::new(right) };
    assert(infer_spec(m, e) == Some(binary_result(m2, op, Some(l), Some(r))));
}

/// `set x = left op right` with an arithmetic operator on operands of
/// known, different types that are not both numbers is analyzed with the
/// error "Type mismatch: <left type> vs <right type>", right after what
/// reading the operands reported.
pub proof fn law_mismatched_declaration(m: SemState, name: Seq<char>, sensitive: bool, left: SpecExpr, op: BinOp, right: SpecExpr, m1: SemState, l: SpecType, m2: SemState, r: SpecType)
    requires
        op == BinOp::Add || op == BinOp::Sub || op == BinOp::Mul || op == BinOp::Div || op == BinOp::Mod,
        infer_spec(m, left) == Some((m1, Some(l))),
        infer_spec(m1, right) == Some((m2, Some(r))),
        l != r,
        !((l == SpecType::Int || l == SpecType::Float) && (r == SpecType::Int || r == SpecType::Float)),
    ensures
        stmt_spec(m, SpecStmt::VarDecl { name, ty: None, value: SpecExpr::BinaryOp { left: Box::new(left), op, right: Box::new(right) }, sensitive })
            matches Some(m3) && m3.errors.len() > m2.errors.len() && m3.errors[m2.errors.len() as int] == "Type mismatch: "@ + debug_of(l)
            + " vs "@ + debug_of(r),
{
    law_arithmetic_operand_types(m, left, op, right, m1, l, m2, r);
    let mm = SemState { errors: m2.errors.push("Type mismatch: "@ + debug_of(l) + " vs "@ + debug_of(r)), ..m2 };
    let m3 = declare(mm, name, param_type(None), false);
    assert(m3.errors[m2.errors.len() as int] == mm.errors[m2.errors.len() as int]);
}

/// Taking an address or dereferencing is allowed only inside `override`:
/// outside one (depth 0), reading `&e` first reports "'&' only inside
/// 'override'" and reading `*e` first reports "'*' only inside 'override'";
/// inside one nothing is reported for it. Then `e` is read; `&e` has type
/// `Ptr` and `*e` type `Int`.
pub proof fn law_pointer_operators(m: SemState, a: SpecExpr)
    ensures
        infer_spec(m, SpecExpr::AddressOf(Box::new(a))) == (match infer_spec(
            if m.override_depth == 0 { SemState { errors: m.errors.push("'&' only inside 'override'"@), ..m } } else { m },
            a,
        ) {
            Some((m1, _)) => Some((m1, Some(SpecType::Ptr))),
            None => None,
        }),
        infer_spec(m, SpecExpr::Deref(Box::new(a))) == (match infer_spec(
            if m.override_depth == 0 { SemState { errors: m.errors.push("'*' only inside 'override'"@), ..m } } else { m },
            a,
        ) {
            Some((m1, _)) => Some((m1, Some(SpecType::Int))),
            None => None,
        }),
{
}

} // verus!
