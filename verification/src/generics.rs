//! Monomorphization: every generic task and generic struct is replaced by
//! one concrete declaration per distinct list of type arguments it is used
//! with, and the uses are renamed to those declarations.
use vstd::prelude::*;
use crate::ast::{
    Type, Expr, Stmt, Block, Program, LoopKind, SpecType, SpecExpr, SpecStmt, SpecBlock, SpecLoopKind, type_view,
    types_view, exprs_view, named_view, stmts_view, strs_view, typed_names_view, opt_type_view,
    block_view, loop_kind_view, spec_substitute, lemma_types_view, lemma_types_view_push,
    lemma_exprs_view, lemma_exprs_view_push, lemma_stmts_view, lemma_stmts_view_push, lemma_named_elem_push, lemma_named_view,
    copy_type, copy_types, copy_expr, copy_exprs, copy_named, copy_stmt, copy_block,
    copy_program, copy_strings, copy_constraints, copy_typed_names, copy_opt_type,
};
use crate::text::str_eq;

verus! {

// ── What the result is held to ──────────────────────────────────────────

/// A generic task or struct declaration: one with type parameters.
pub open spec fn is_generic_decl(s: SpecStmt) -> bool {
    match s {
        SpecStmt::TaskDecl { type_params, .. } => type_params.len() > 0,
        SpecStmt::StructDecl { type_params, .. } => type_params.len() > 0,
        _ => false,
    }
}

pub open spec fn has_generic_decl(ss: Seq<SpecStmt>) -> bool {
    exists|i: int| 0 <= i < ss.len() && is_generic_decl(#[trigger] ss[i])
}

/// The name part that a type argument contributes to a concrete name.
pub open spec fn suffix_of(t: SpecType) -> Seq<char>
    decreases t,
{
    match t {
        SpecType::Int => "int"@,
        SpecType::Int8 => "i8"@,
        SpecType::Int16 => "i16"@,
        SpecType::Int64 => "i64"@,
        SpecType::Float => "float"@,
        SpecType::Bool => "bool"@,
        SpecType::String => "string"@,
        SpecType::Ptr => "ptr"@,
        SpecType::Void => "void"@,
        SpecType::Struct(n) => n,
        SpecType::Enum(n) => n,
        SpecType::Array(inner) => "arr_"@ + suffix_of(*inner),
        SpecType::Generic(n) => n,
        _ => "t"@,
    }
}

/// The suffixes of the type arguments, joined by `_`.
pub open spec fn joined_suffixes(ts: Seq<SpecType>) -> Seq<char>
    decreases ts.len(),
{
    if ts.len() == 0 {
        Seq::empty()
    } else if ts.len() == 1 {
        suffix_of(ts[0])
    } else {
        joined_suffixes(ts.drop_last()) + "_"@ + suffix_of(ts.last())
    }
}

/// The name of the concrete copy of `name` for the type arguments `args`.
pub open spec fn concrete_name(name: Seq<char>, args: Seq<SpecType>) -> Seq<char> {
    name + "_"@ + joined_suffixes(args)
}

/// The type that a literal argument gives a type parameter.
pub open spec fn literal_type(e: SpecExpr) -> SpecType {
    match e {
        SpecExpr::Integer(_) => SpecType::Int,
        SpecExpr::Float(_) => SpecType::Float,
        SpecExpr::Boolean(_) => SpecType::Bool,
        SpecExpr::StringLiteral(_) => SpecType::String,
        SpecExpr::Null => SpecType::Ptr,
        _ => SpecType::Int,
    }
}

/// `t` with the type parameters `ps` replaced, one after the other, by the
/// arguments `args` in the same places.
pub open spec fn subst_seq(t: SpecType, ps: Seq<Seq<char>>, args: Seq<SpecType>) -> SpecType
    decreases ps.len(),
{
    if ps.len() == 0 || args.len() == 0 {
        t
    } else {
        subst_seq(spec_substitute(t, ps[0], args[0]), ps.drop_first(), args.drop_first())
    }
}

/// Two lists of type arguments are the same.
pub open spec fn same_args(a: Vec<Type>, b: Vec<Type>) -> bool {
    types_view(a@) == types_view(b@)
}

/// No (name, arguments) instantiation is recorded twice.
pub open spec fn insts_wf(s: Seq<(String, Vec<Type>)>) -> bool {
    forall|i: int, j: int|
        0 <= i < j < s.len() ==> !(#[trigger] s[i].0@ == #[trigger] s[j].0@ && same_args(s[i].1, s[j].1))
}


// ── What the pass computes ──────────────────────────────────────────────

/// The index of the first parameter declared with the type parameter `tp`
/// that has an argument, if any.
pub open spec fn param_arg_index(params: Seq<(Seq<char>, SpecType)>, tp: Seq<char>, nargs: int) -> Option<int> {
    if exists|i: int| 0 <= i < params.len() && params[i].1 == SpecType::Generic(tp) && i < nargs {
        Some(choose|i: int| 0 <= i < params.len() && params[i].1 == SpecType::Generic(tp) && i < nargs
            && forall|j: int| 0 <= j < i ==> !(params[j].1 == SpecType::Generic(tp) && j < nargs))
    } else {
        None
    }
}

/// The type arguments a call gives a generic task: for each type
/// parameter, the literal type of the first argument passed for a
/// parameter declared with it; `int` where there is none.
pub open spec fn call_args_spec(tps: Seq<Seq<char>>, params: Seq<(Seq<char>, SpecType)>, args: Seq<SpecExpr>) -> Seq<SpecType> {
    Seq::new(tps.len(), |k: int| match param_arg_index(params, tps[k], args.len() as int) {
        Some(i) => literal_type(args[i]),
        None => SpecType::Int,
    })
}

/// The index of the first value given for the field `f`, if any.
pub open spec fn value_index(values: Seq<(Seq<char>, SpecExpr)>, f: Seq<char>) -> Option<int> {
    if exists|j: int| 0 <= j < values.len() && values[j].0 == f {
        Some(choose|j: int| 0 <= j < values.len() && values[j].0 == f && forall|m: int| 0 <= m < j ==> values[m].0 != f)
    } else {
        None
    }
}

/// The index of the first field declared with the type parameter `tp`
/// that the literal gives a value, if any.
pub open spec fn field_with_value(fields: Seq<(Seq<char>, SpecType)>, tp: Seq<char>, values: Seq<(Seq<char>, SpecExpr)>) -> Option<int> {
    if exists|i: int| 0 <= i < fields.len() && fields[i].1 == SpecType::Generic(tp) && value_index(values, fields[i].0) is Some {
        Some(choose|i: int| 0 <= i < fields.len() && fields[i].1 == SpecType::Generic(tp) && value_index(values, fields[i].0) is Some
            && forall|j: int| 0 <= j < i ==> !(fields[j].1 == SpecType::Generic(tp) && value_index(values, fields[j].0) is Some))
    } else {
        None
    }
}

/// The type arguments a struct literal gives a generic struct: for each
/// type parameter, the literal type of the value of the first field
/// declared with it that has one; `int` where there is none.
pub open spec fn struct_args_spec(tps: Seq<Seq<char>>, fields: Seq<(Seq<char>, SpecType)>, values: Seq<(Seq<char>, SpecExpr)>) -> Seq<SpecType> {
    Seq::new(tps.len(), |k: int| match field_with_value(fields, tps[k], values) {
        Some(i) => literal_type(values[value_index(values, fields[i].0)->0].1),
        None => SpecType::Int,
    })
}

/// A generic task as the pass uses it: name, type parameters, parameters,
/// return type, body, and whether it is inline and async.
pub type TaskDefView = (Seq<char>, Seq<Seq<char>>, Seq<(Seq<char>, SpecType)>, SpecType, SpecBlock, bool, bool);

/// A generic struct: name, type parameters, fields.
pub type StructDefView = (Seq<char>, Seq<Seq<char>>, Seq<(Seq<char>, SpecType)>);

/// The first generic task of that name.
pub open spec fn find_task_def(ds: Seq<TaskDefView>, name: Seq<char>) -> Option<int> {
    if exists|i: int| 0 <= i < ds.len() && ds[i].0 == name {
        Some(choose|i: int| 0 <= i < ds.len() && ds[i].0 == name && forall|j: int| 0 <= j < i ==> ds[j].0 != name)
    } else {
        None
    }
}

/// The first generic struct of that name.
pub open spec fn find_struct_def(ds: Seq<StructDefView>, name: Seq<char>) -> Option<int> {
    if exists|i: int| 0 <= i < ds.len() && ds[i].0 == name {
        Some(choose|i: int| 0 <= i < ds.len() && ds[i].0 == name && forall|j: int| 0 <= j < i ==> ds[j].0 != name)
    } else {
        None
    }
}

/// The generic task and struct declarations of the statements, in order
/// of first declaration; a later declaration of a name takes the place of
/// the earlier one.
pub open spec fn defs_of(ss: Seq<SpecStmt>) -> (Seq<TaskDefView>, Seq<StructDefView>)
    decreases ss.len(),
{
    if ss.len() == 0 {
        (Seq::empty(), Seq::empty())
    } else {
        let (t, st) = defs_of(ss.drop_last());
        match ss.last() {
            SpecStmt::TaskDecl { name, type_params, params, return_type, body, is_inline, is_async, .. } => {
                if type_params.len() > 0 {
                    let d = (name, type_params, params, return_type, body, is_inline, is_async);
                    (match find_task_def(t, name) { Some(k) => t.update(k, d), None => t.push(d) }, st)
                } else {
                    (t, st)
                }
            },
            SpecStmt::StructDecl { name, type_params, fields } => {
                if type_params.len() > 0 {
                    let d = (name, type_params, fields);
                    (t, match find_struct_def(st, name) { Some(k) => st.update(k, d), None => st.push(d) })
                } else {
                    (t, st)
                }
            },
            _ => (t, st),
        }
    }
}

/// A recorded instantiation: a generic name and its type arguments.
pub type InstView = (Seq<char>, Seq<SpecType>);

/// The instantiations recorded so far: of tasks, then of structs.
pub type InstsView = (Seq<InstView>, Seq<InstView>);

/// Records an instantiation unless it is recorded already.
pub open spec fn add_inst_spec(iv: Seq<InstView>, name: Seq<char>, args: Seq<SpecType>) -> Seq<InstView> {
    if exists|i: int| 0 <= i < iv.len() && iv[i] == (name, args) {
        iv
    } else {
        iv.push((name, args))
    }
}

/// A call of a generic task by name records the task with the types its
/// arguments give.
pub open spec fn call_inst_step(func: SpecExpr, args: Seq<SpecExpr>, t: Seq<TaskDefView>, ti: Seq<InstView>) -> Seq<InstView> {
    match func {
        SpecExpr::Identifier(name) => match find_task_def(t, name) {
            Some(k) => add_inst_spec(ti, name, call_args_spec(t[k].1, t[k].2, args)),
            None => ti,
        },
        _ => ti,
    }
}

/// A literal of a generic struct records the struct with the types its
/// field values give.
pub open spec fn struct_inst_step(name: Seq<char>, fields: Seq<(Seq<char>, SpecExpr)>, s: Seq<StructDefView>, si: Seq<InstView>) -> Seq<InstView> {
    match find_struct_def(s, name) {
        Some(k) => add_inst_spec(si, name, struct_args_spec(s[k].1, s[k].2, fields)),
        None => si,
    }
}

/// The instantiations an expression adds, in the order the pass walks it:
/// a call of a generic task by name records the task with the types its
/// arguments give; a literal of a generic struct records the struct; the
/// walk goes through call arguments, literal fields and operators.
pub open spec fn collect_expr_spec(e: SpecExpr, t: Seq<TaskDefView>, s: Seq<StructDefView>, st: InstsView) -> InstsView
    decreases e,
{
    match e {
        SpecExpr::Call { func, args, .. } => collect_exprs_spec(args, t, s, (call_inst_step(*func, args, t, st.0), st.1)),
        SpecExpr::StructLiteral { name, fields } => collect_named_spec(fields, t, s, (st.0, struct_inst_step(name, fields, s, st.1))),
        SpecExpr::BinaryOp { left, right, .. } => collect_expr_spec(*right, t, s, collect_expr_spec(*left, t, s, st)),
        SpecExpr::UnaryOp { operand, .. } => collect_expr_spec(*operand, t, s, st),
        _ => st,
    }
}

pub open spec fn collect_exprs_spec(es: Seq<SpecExpr>, t: Seq<TaskDefView>, s: Seq<StructDefView>, st: InstsView) -> InstsView
    decreases es,
{
    if es.len() == 0 {
        st
    } else {
        collect_expr_spec(es.last(), t, s, collect_exprs_spec(es.drop_last(), t, s, st))
    }
}

pub open spec fn collect_named_spec(ns: Seq<(Seq<char>, SpecExpr)>, t: Seq<TaskDefView>, s: Seq<StructDefView>, st: InstsView) -> InstsView
    decreases ns,
{
    if ns.len() == 0 {
        st
    } else {
        collect_expr_spec(ns.last().1, t, s, collect_named_spec(ns.drop_last(), t, s, st))
    }
}

/// The instantiations a statement adds: from its value or condition, and
/// from the bodies of checks, loops and non-generic tasks.
pub open spec fn collect_stmt_spec(st_: SpecStmt, t: Seq<TaskDefView>, s: Seq<StructDefView>, st: InstsView) -> InstsView
    decreases st_,
{
    match st_ {
        SpecStmt::VarDecl { value, .. } => collect_expr_spec(value, t, s, st),
        SpecStmt::Assign { value, .. } => collect_expr_spec(value, t, s, st),
        SpecStmt::TaskDecl { type_params, body, .. } => if type_params.len() == 0 {
            collect_block_spec(body, t, s, st)
        } else {
            st
        },
        SpecStmt::Check { condition, then_block, else_block } => {
            let a = collect_block_spec(then_block, t, s, collect_expr_spec(condition, t, s, st));
            if else_block is Some { collect_block_spec(else_block->0, t, s, a) } else { a }
        },
        SpecStmt::Loop { body, .. } => collect_block_spec(body, t, s, st),
        SpecStmt::ExprStmt(e) => collect_expr_spec(e, t, s, st),
        SpecStmt::Print(e) => collect_expr_spec(e, t, s, st),
        SpecStmt::Return(Some(e)) => collect_expr_spec(e, t, s, st),
        SpecStmt::PrintFmt { args, .. } => collect_exprs_spec(args, t, s, st),
        _ => st,
    }
}

pub open spec fn collect_stmts_spec(ss: Seq<SpecStmt>, t: Seq<TaskDefView>, s: Seq<StructDefView>, st: InstsView) -> InstsView
    decreases ss,
{
    if ss.len() == 0 {
        st
    } else {
        collect_stmt_spec(ss.last(), t, s, collect_stmts_spec(ss.drop_last(), t, s, st))
    }
}

pub open spec fn collect_block_spec(b: SpecBlock, t: Seq<TaskDefView>, s: Seq<StructDefView>, st: InstsView) -> InstsView
    decreases b,
{
    let st1 = collect_stmts_spec(b.statements, t, s, st);
    if b.tail_expr is Some { collect_expr_spec(b.tail_expr->0, t, s, st1) } else { st1 }
}

/// The first recorded instantiation of `name`, if any.
pub open spec fn first_inst_index(iv: Seq<InstView>, name: Seq<char>) -> Option<int> {
    if exists|i: int| 0 <= i < iv.len() && iv[i].0 == name {
        Some(choose|i: int| 0 <= i < iv.len() && iv[i].0 == name && forall|j: int| 0 <= j < i ==> iv[j].0 != name)
    } else {
        None
    }
}

/// The concrete name a call is renamed to: for a call of a generic task by
/// name whose argument types were recorded, the task's concrete copy for
/// them.
pub open spec fn rename_call(func: SpecExpr, args: Seq<SpecExpr>, t: Seq<TaskDefView>, ti: Seq<InstView>) -> Option<Seq<char>> {
    match func {
        SpecExpr::Identifier(name) => match find_task_def(t, name) {
            Some(k) => {
                let inferred = call_args_spec(t[k].1, t[k].2, args);
                if exists|i: int| 0 <= i < ti.len() && ti[i] == (name, inferred) {
                    Some(concrete_name(name, inferred))
                } else {
                    None
                }
            },
            None => None,
        },
        _ => None,
    }
}

/// The concrete name a literal of a generic struct is renamed to: the copy
/// for the struct's first recorded instantiation.
pub open spec fn rename_struct(name: Seq<char>, s: Seq<StructDefView>, si: Seq<InstView>) -> Option<Seq<char>> {
    if find_struct_def(s, name) is Some {
        match first_inst_index(si, name) {
            Some(k) => Some(concrete_name(name, si[k].1)),
            None => None,
        }
    } else {
        None
    }
}

/// `e` with its calls of generic tasks and literals of generic structs
/// renamed to their concrete copies, through arguments, fields and
/// operators.
pub open spec fn rewrite_expr_spec(e: SpecExpr, t: Seq<TaskDefView>, s: Seq<StructDefView>, ti: Seq<InstView>, si: Seq<InstView>) -> SpecExpr
    decreases e,
{
    match e {
        SpecExpr::Call { func, args, named } => {
            let a2 = rewrite_exprs_spec(args, t, s, ti, si);
            match rename_call(*func, args, t, ti) {
                Some(c) => SpecExpr::Call { func: Box::new(SpecExpr::Identifier(c)), args: a2, named },
                None => SpecExpr::Call { func, args: a2, named },
            }
        },
        SpecExpr::StructLiteral { name, fields } => {
            let f2 = rewrite_named_spec(fields, t, s, ti, si);
            match rename_struct(name, s, si) {
                Some(c) => SpecExpr::StructLiteral { name: c, fields: f2 },
                None => SpecExpr::StructLiteral { name, fields: f2 },
            }
        },
        SpecExpr::BinaryOp { left, op, right } => SpecExpr::BinaryOp {
            left: Box::new(rewrite_expr_spec(*left, t, s, ti, si)),
            op,
            right: Box::new(rewrite_expr_spec(*right, t, s, ti, si)),
        },
        SpecExpr::UnaryOp { op, operand } => SpecExpr::UnaryOp { op, operand: Box::new(rewrite_expr_spec(*operand, t, s, ti, si)) },
        _ => e,
    }
}

pub open spec fn rewrite_exprs_spec(es: Seq<SpecExpr>, t: Seq<TaskDefView>, s: Seq<StructDefView>, ti: Seq<InstView>, si: Seq<InstView>) -> Seq<SpecExpr>
    decreases es,
{
    if es.len() == 0 {
        Seq::empty()
    } else {
        rewrite_exprs_spec(es.drop_last(), t, s, ti, si).push(rewrite_expr_spec(es.last(), t, s, ti, si))
    }
}

pub open spec fn rewrite_named_spec(ns: Seq<(Seq<char>, SpecExpr)>, t: Seq<TaskDefView>, s: Seq<StructDefView>, ti: Seq<InstView>, si: Seq<InstView>) -> Seq<(Seq<char>, SpecExpr)>
    decreases ns,
{
    if ns.len() == 0 {
        Seq::empty()
    } else {
        rewrite_named_spec(ns.drop_last(), t, s, ti, si).push((ns.last().0, rewrite_expr_spec(ns.last().1, t, s, ti, si)))
    }
}

/// A loop's head with its expressions renamed.
pub open spec fn rewrite_kind_spec(k: SpecLoopKind, t: Seq<TaskDefView>, s: Seq<StructDefView>, ti: Seq<InstView>, si: Seq<InstView>) -> SpecLoopKind {
    match k {
        SpecLoopKind::Times(e) => SpecLoopKind::Times(rewrite_expr_spec(e, t, s, ti, si)),
        SpecLoopKind::While(e) => SpecLoopKind::While(rewrite_expr_spec(e, t, s, ti, si)),
        SpecLoopKind::FromTo { var, from, to } => SpecLoopKind::FromTo {
            var,
            from: rewrite_expr_spec(from, t, s, ti, si),
            to: rewrite_expr_spec(to, t, s, ti, si),
        },
        SpecLoopKind::ForEach { var, iterable } => SpecLoopKind::ForEach { var, iterable: rewrite_expr_spec(iterable, t, s, ti, si) },
        SpecLoopKind::Range { var, range } => SpecLoopKind::Range { var, range: rewrite_expr_spec(range, t, s, ti, si) },
        SpecLoopKind::Infinite => SpecLoopKind::Infinite,
    }
}

/// A statement with its uses renamed: values, conditions, loop heads, and
/// the bodies of checks, loops and non-generic tasks.
pub open spec fn rewrite_stmt_spec(st: SpecStmt, t: Seq<TaskDefView>, s: Seq<StructDefView>, ti: Seq<InstView>, si: Seq<InstView>) -> SpecStmt
    decreases st,
{
    match st {
        SpecStmt::ExprStmt(e) => SpecStmt::ExprStmt(rewrite_expr_spec(e, t, s, ti, si)),
        SpecStmt::Print(e) => SpecStmt::Print(rewrite_expr_spec(e, t, s, ti, si)),
        SpecStmt::Return(Some(e)) => SpecStmt::Return(Some(rewrite_expr_spec(e, t, s, ti, si))),
        SpecStmt::VarDecl { name, ty, value, sensitive } => SpecStmt::VarDecl { name, ty, value: rewrite_expr_spec(value, t, s, ti, si), sensitive },
        SpecStmt::Assign { name, value } => SpecStmt::Assign { name, value: rewrite_expr_spec(value, t, s, ti, si) },
        SpecStmt::Check { condition, then_block, else_block } => SpecStmt::Check {
            condition: rewrite_expr_spec(condition, t, s, ti, si),
            then_block: rewrite_block_spec(then_block, t, s, ti, si),
            else_block: if else_block is Some { Some(rewrite_block_spec(else_block->0, t, s, ti, si)) } else { None },
        },
        SpecStmt::Loop { kind, body } => SpecStmt::Loop { kind: rewrite_kind_spec(kind, t, s, ti, si), body: rewrite_block_spec(body, t, s, ti, si) },
        SpecStmt::TaskDecl { name, type_params, constraints, params, return_type, body, is_inline, is_async } => {
            if type_params.len() == 0 {
                SpecStmt::TaskDecl {
                    name,
                    type_params,
                    constraints,
                    params,
                    return_type,
                    body: rewrite_block_spec(body, t, s, ti, si),
                    is_inline,
                    is_async,
                }
            } else {
                st
            }
        },
        _ => st,
    }
}

pub open spec fn rewrite_stmts_spec(ss: Seq<SpecStmt>, t: Seq<TaskDefView>, s: Seq<StructDefView>, ti: Seq<InstView>, si: Seq<InstView>) -> Seq<SpecStmt>
    decreases ss,
{
    if ss.len() == 0 {
        Seq::empty()
    } else {
        rewrite_stmts_spec(ss.drop_last(), t, s, ti, si).push(rewrite_stmt_spec(ss.last(), t, s, ti, si))
    }
}

pub open spec fn rewrite_block_spec(b: SpecBlock, t: Seq<TaskDefView>, s: Seq<StructDefView>, ti: Seq<InstView>, si: Seq<InstView>) -> SpecBlock
    decreases b,
{
    SpecBlock {
        statements: rewrite_stmts_spec(b.statements, t, s, ti, si),
        tail_expr: if b.tail_expr is Some { Some(rewrite_expr_spec(b.tail_expr->0, t, s, ti, si)) } else { None },
    }
}

/// Typed names with the type parameters replaced in their types.
pub open spec fn subst_fields(fs: Seq<(Seq<char>, SpecType)>, ps: Seq<Seq<char>>, args: Seq<SpecType>) -> Seq<(Seq<char>, SpecType)> {
    fs.map_values(|p: (Seq<char>, SpecType)| (p.0, subst_seq(p.1, ps, args)))
}

/// The non-generic statements in order, renamed.
pub open spec fn kept_spec(ss: Seq<SpecStmt>, t: Seq<TaskDefView>, s: Seq<StructDefView>, ti: Seq<InstView>, si: Seq<InstView>) -> Seq<SpecStmt>
    decreases ss.len(),
{
    if ss.len() == 0 {
        Seq::empty()
    } else {
        let prev = kept_spec(ss.drop_last(), t, s, ti, si);
        if is_generic_decl(ss.last()) { prev } else { prev.push(rewrite_stmt_spec(ss.last(), t, s, ti, si)) }
    }
}

/// The concrete copy of a generic struct for some type arguments.
pub open spec fn struct_instance(d: StructDefView, args: Seq<SpecType>) -> SpecStmt {
    SpecStmt::StructDecl { name: concrete_name(d.0, args), type_params: Seq::empty(), fields: subst_fields(d.2, d.1, args) }
}

/// The concrete copy of a generic task for some type arguments.
pub open spec fn task_instance(d: TaskDefView, args: Seq<SpecType>) -> SpecStmt {
    SpecStmt::TaskDecl {
        name: concrete_name(d.0, args),
        type_params: Seq::empty(),
        constraints: Seq::empty(),
        params: subst_fields(d.2, d.1, args),
        return_type: subst_seq(d.3, d.1, args),
        body: subst_block(d.4, d.1, args),
        is_inline: d.5,
        is_async: d.6,
    }
}

/// The copies of one generic struct, one per recorded instantiation of it,
/// in the order they were recorded.
pub open spec fn struct_copies(d: StructDefView, si: Seq<InstView>) -> Seq<SpecStmt>
    decreases si.len(),
{
    if si.len() == 0 {
        Seq::empty()
    } else {
        let prev = struct_copies(d, si.drop_last());
        if si.last().0 == d.0 { prev.push(struct_instance(d, si.last().1)) } else { prev }
    }
}

pub open spec fn task_copies(d: TaskDefView, ti: Seq<InstView>) -> Seq<SpecStmt>
    decreases ti.len(),
{
    if ti.len() == 0 {
        Seq::empty()
    } else {
        let prev = task_copies(d, ti.drop_last());
        if ti.last().0 == d.0 { prev.push(task_instance(d, ti.last().1)) } else { prev }
    }
}

/// The concrete structs, grouped by generic struct.
pub open spec fn emit_structs_spec(s: Seq<StructDefView>, si: Seq<InstView>) -> Seq<SpecStmt>
    decreases s.len(),
{
    if s.len() == 0 {
        Seq::empty()
    } else {
        emit_structs_spec(s.drop_last(), si) + struct_copies(s.last(), si)
    }
}

/// The concrete tasks, grouped by generic task.
pub open spec fn emit_tasks_spec(t: Seq<TaskDefView>, ti: Seq<InstView>) -> Seq<SpecStmt>
    decreases t.len(),
{
    if t.len() == 0 {
        Seq::empty()
    } else {
        emit_tasks_spec(t.drop_last(), ti) + task_copies(t.last(), ti)
    }
}

/// What monomorphization makes of a program's statements. Without generic
/// declarations they stay as they are. Otherwise the instantiations are
/// recorded by walking the statements in order; the result is the
/// non-generic statements, renamed, then one concrete struct per recorded
/// instantiation of each generic struct, then one concrete task per
/// recorded instantiation of each generic task.
pub open spec fn monomorphize_spec(ss: Seq<SpecStmt>) -> Seq<SpecStmt> {
    let (t, s) = defs_of(ss);
    if t.len() == 0 && s.len() == 0 {
        ss
    } else {
        let insts = collect_stmts_spec(ss, t, s, (Seq::empty(), Seq::empty()));
        kept_spec(ss, t, s, insts.0, insts.1) + emit_structs_spec(s, insts.1) + emit_tasks_spec(t, insts.0)
    }
}

// ── Definitions found in the program ────────────────────────────────────

struct TaskDef {
    name: String,
    type_params: Vec<String>,
    params: Vec<(String, Type)>,
    return_type: Type,
    body: Block,
    is_inline: bool,
    is_async: bool,
}

struct StructDef {
    name: String,
    type_params: Vec<String>,
    fields: Vec<(String, Type)>,
}

spec fn task_def_view(d: TaskDef) -> TaskDefView {
    (d.name@, strs_view(d.type_params@), typed_names_view(d.params@), d.return_type@, d.body@, d.is_inline, d.is_async)
}

spec fn task_defs_view(ds: Seq<TaskDef>) -> Seq<TaskDefView> {
    ds.map_values(|d: TaskDef| task_def_view(d))
}

spec fn struct_def_view(d: StructDef) -> StructDefView {
    (d.name@, strs_view(d.type_params@), typed_names_view(d.fields@))
}

spec fn struct_defs_view(ds: Seq<StructDef>) -> Seq<StructDefView> {
    ds.map_values(|d: StructDef| struct_def_view(d))
}

/// The recorded instantiations as names and type arguments.
pub open spec fn insts_view(is: Seq<(String, Vec<Type>)>) -> Seq<InstView> {
    is.map_values(|p: (String, Vec<Type>)| (p.0@, types_view(p.1@)))
}

fn find_task(defs: &Vec<TaskDef>, name: &str) -> (r: Option<usize>)
    ensures
        r matches Some(i) ==> i < defs@.len() && defs@[i as int].name@ == name@,
        r is None ==> forall|i: int| 0 <= i < defs@.len() ==> defs@[i].name@ != name@,
        match r {
            Some(i) => find_task_def(task_defs_view(defs@), name@) == Some(i as int),
            None => find_task_def(task_defs_view(defs@), name@) is None,
        },
{
    let ghost dv = task_defs_view(defs@);
    let mut i: usize = 0;
    while i < defs.len()
        invariant
            i <= defs@.len(),
            dv == task_defs_view(defs@),
            forall|j: int| 0 <= j < i ==> defs@[j].name@ != name@,
        decreases defs.len() - i,
    {
        if str_eq(defs[i].name.as_str(), name) {
            proof {
                assert(dv[i as int].0 == name@);
                let c = choose|c: int| 0 <= c < dv.len() && dv[c].0 == name@ && forall|j: int| 0 <= j < c ==> dv[j].0 != name@;
                if c < i {
                    assert(dv[c].0 == defs@[c].name@);
                }
                if c > i {
                }
            }
            return Some(i);
        }
        i = i + 1;
    }
    proof {
        assert forall|j: int| 0 <= j < dv.len() implies dv[j].0 != name@ by {
            assert(dv[j].0 == defs@[j].name@);
        }
    }
    None
}

fn find_struct(defs: &Vec<StructDef>, name: &str) -> (r: Option<usize>)
    ensures
        r matches Some(i) ==> i < defs@.len() && defs@[i as int].name@ == name@,
        r is None ==> forall|i: int| 0 <= i < defs@.len() ==> defs@[i].name@ != name@,
        match r {
            Some(i) => find_struct_def(struct_defs_view(defs@), name@) == Some(i as int),
            None => find_struct_def(struct_defs_view(defs@), name@) is None,
        },
{
    let ghost dv = struct_defs_view(defs@);
    let mut i: usize = 0;
    while i < defs.len()
        invariant
            i <= defs@.len(),
            dv == struct_defs_view(defs@),
            forall|j: int| 0 <= j < i ==> defs@[j].name@ != name@,
        decreases defs.len() - i,
    {
        if str_eq(defs[i].name.as_str(), name) {
            proof {
                assert(dv[i as int].0 == name@);
                let c = choose|c: int| 0 <= c < dv.len() && dv[c].0 == name@ && forall|j: int| 0 <= j < c ==> dv[j].0 != name@;
                if c < i {
                    assert(dv[c].0 == defs@[c].name@);
                }
            }
            return Some(i);
        }
        i = i + 1;
    }
    proof {
        assert forall|j: int| 0 <= j < dv.len() implies dv[j].0 != name@ by {
            assert(dv[j].0 == defs@[j].name@);
        }
    }
    None
}

// ── Type equality, suffixes and names ───────────────────────────────────

/// Whether two types are the same.
pub fn type_eq(a: &Type, b: &Type) -> (r: bool)
    ensures
        r == (a@ == b@),
    decreases a,
{
    match a {
        Type::Int => matches!(b, Type::Int),
        Type::Int8 => matches!(b, Type::Int8),
        Type::Int16 => matches!(b, Type::Int16),
        Type::Int64 => matches!(b, Type::Int64),
        Type::Uint8 => matches!(b, Type::Uint8),
        Type::Uint16 => matches!(b, Type::Uint16),
        Type::Uint32 => matches!(b, Type::Uint32),
        Type::Uint64 => matches!(b, Type::Uint64),
        Type::Float => matches!(b, Type::Float),
        Type::Float32 => matches!(b, Type::Float32),
        Type::Bool => matches!(b, Type::Bool),
        Type::String => matches!(b, Type::String),
        Type::Ptr => matches!(b, Type::Ptr),
        Type::Void => matches!(b, Type::Void),
        Type::Array(x) => match b {
            Type::Array(y) => type_eq(x, y),
            _ => false,
        },
        Type::Slice(x) => match b {
            Type::Slice(y) => type_eq(x, y),
            _ => false,
        },
        Type::Result(x) => match b {
            Type::Result(y) => type_eq(x, y),
            _ => false,
        },
        Type::Nullable(x) => match b {
            Type::Nullable(y) => type_eq(x, y),
            _ => false,
        },
        Type::Async(x) => match b {
            Type::Async(y) => type_eq(x, y),
            _ => false,
        },
        Type::Tuple(x) => match b {
            Type::Tuple(y) => type_list_eq(x, y),
            _ => false,
        },
        Type::Struct(x) => match b {
            Type::Struct(y) => str_eq(x.as_str(), y.as_str()),
            _ => false,
        },
        Type::Enum(x) => match b {
            Type::Enum(y) => str_eq(x.as_str(), y.as_str()),
            _ => false,
        },
        Type::Generic(x) => match b {
            Type::Generic(y) => str_eq(x.as_str(), y.as_str()),
            _ => false,
        },
        Type::Fn(p, q) => match b {
            Type::Fn(p2, q2) => type_list_eq(p, p2) && type_eq(q, q2),
            _ => false,
        },
    }
}

/// Whether two lists of types are the same.
pub fn type_list_eq(a: &Vec<Type>, b: &Vec<Type>) -> (r: bool)
    ensures
        r == (types_view(a@) == types_view(b@)),
    decreases a,
{
    proof {
        lemma_types_view(a@);
        lemma_types_view(b@);
    }
    if a.len() != b.len() {
        return false;
    }
    let mut i: usize = 0;
    while i < a.len()
        invariant
            i <= a@.len(),
            a@.len() == b@.len(),
            types_view(a@).len() == a@.len(),
            types_view(b@).len() == b@.len(),
            forall|j: int| 0 <= j < a@.len() ==> #[trigger] types_view(a@)[j] == type_view(a@[j]),
            forall|j: int| 0 <= j < b@.len() ==> #[trigger] types_view(b@)[j] == type_view(b@[j]),
            forall|j: int| 0 <= j < i ==> type_view(a@[j]) == type_view(b@[j]),
        decreases a.len() - i,
    {
        if !type_eq(&a[i], &b[i]) {
            assert(types_view(a@)[i as int] != types_view(b@)[i as int]);
            return false;
        }
        i = i + 1;
    }
    assert(types_view(a@) =~= types_view(b@));
    true
}

/// The name part that a type argument contributes to a concrete name.
pub fn type_to_suffix(t: &Type) -> (r: String)
    ensures
        r@ == suffix_of(t@),
    decreases t,
{
    match t {
        Type::Int => String::from_str("int"),
        Type::Int8 => String::from_str("i8"),
        Type::Int16 => String::from_str("i16"),
        Type::Int64 => String::from_str("i64"),
        Type::Float => String::from_str("float"),
        Type::Bool => String::from_str("bool"),
        Type::String => String::from_str("string"),
        Type::Ptr => String::from_str("ptr"),
        Type::Void => String::from_str("void"),
        Type::Struct(n) => n.clone(),
        Type::Enum(n) => n.clone(),
        Type::Array(inner) => {
            let s = type_to_suffix(inner);
            crate::text::concat2("arr_", s.as_str())
        },
        Type::Generic(n) => n.clone(),
        _ => String::from_str("t"),
    }
}

/// The name of the concrete copy of `name` for the type arguments
/// `type_args`: the name, `_`, and the arguments' suffixes joined by `_`.
pub fn make_concrete_name(name: &str, type_args: &Vec<Type>) -> (r: String)
    ensures
        r@ == concrete_name(name@, types_view(type_args@)),
{
    let mut joined = String::new();
    let mut i: usize = 0;
    while i < type_args.len()
        invariant
            i <= type_args@.len(),
            joined@ == joined_suffixes(types_view(type_args@.take(i as int))),
        decreases type_args.len() - i,
    {
        let suffix = type_to_suffix(&type_args[i]);
        proof {
            lemma_types_view_push(type_args@.take(i as int), type_args@[i as int]);
            assert(type_args@.take(i as int).push(type_args@[i as int]) =~= type_args@.take(i + 1));
            lemma_types_view(type_args@.take(i as int));
            let tv = types_view(type_args@.take(i + 1));
            assert(tv.drop_last() =~= types_view(type_args@.take(i as int)));
        }
        if i > 0 {
            joined.append("_");
        }
        joined.append(suffix.as_str());
        i = i + 1;
    }
    assert(type_args@.take(type_args@.len() as int) =~= type_args@);
    let mut r = String::from_str(name);
    r.append("_");
    r.append(joined.as_str());
    r
}

/// The type that a literal argument gives a type parameter (`int` for
/// anything that is not a literal).
pub fn infer_expr_type(e: &Expr) -> (r: Type)
    ensures
        r@ == literal_type(e@),
{
    match e {
        Expr::Integer(_) => Type::Int,
        Expr::Float(_) => Type::Float,
        Expr::Boolean(_) => Type::Bool,
        Expr::StringLiteral(_) => Type::String,
        Expr::Null => Type::Ptr,
        _ => Type::Int,
    }
}

/// `t` with each of `params` replaced by the argument in the same place.
pub fn subst_params(t: &Type, params: &Vec<String>, args: &Vec<Type>) -> (r: Type)
    ensures
        r@ == subst_seq(t@, strs_view(params@), types_view(args@)),
{
    let mut cur = copy_type(t);
    let mut i: usize = 0;
    proof {
        lemma_types_view(args@);
        assert(strs_view(params@).skip(0) =~= strs_view(params@));
        assert(types_view(args@).skip(0) =~= types_view(args@));
    }
    while i < params.len() && i < args.len()
        invariant
            i <= params@.len(),
            i <= args@.len(),
            types_view(args@).len() == args@.len(),
            forall|j: int| 0 <= j < args@.len() ==> #[trigger] types_view(args@)[j] == type_view(args@[j]),
            subst_seq(cur@, strs_view(params@).skip(i as int), types_view(args@).skip(i as int))
                == subst_seq(t@, strs_view(params@), types_view(args@)),
        decreases params.len() - i,
    {
        proof {
            let ps = strs_view(params@).skip(i as int);
            let as_ = types_view(args@).skip(i as int);
            assert(ps.drop_first() =~= strs_view(params@).skip(i + 1));
            assert(as_.drop_first() =~= types_view(args@).skip(i + 1));
            assert(ps[0] == params@[i as int]@);
            assert(as_[0] == type_view(args@[i as int]));
        }
        cur = cur.substitute(params[i].as_str(), &args[i]);
        i = i + 1;
    }
    proof {
        let ps = strs_view(params@).skip(i as int);
        let as_ = types_view(args@).skip(i as int);
        assert(ps.len() == 0 || as_.len() == 0);
    }
    cur
}

fn subst_typed_names(v: &Vec<(String, Type)>, params: &Vec<String>, args: &Vec<Type>) -> (r: Vec<(String, Type)>)
    ensures
        typed_names_view(r@) == subst_fields(typed_names_view(v@), strs_view(params@), types_view(args@)),
        r@.len() == v@.len(),
        forall|i: int| 0 <= i < v@.len() ==> #[trigger] r@[i].0@ == v@[i].0@
            && type_view(r@[i].1) == subst_seq(type_view(v@[i].1), strs_view(params@), types_view(args@)),
{
    let mut r: Vec<(String, Type)> = Vec::new();
    let mut i: usize = 0;
    while i < v.len()
        invariant
            i <= v@.len(),
            r@.len() == i,
            forall|j: int| 0 <= j < i ==> #[trigger] r@[j].0@ == v@[j].0@
                && type_view(r@[j].1) == subst_seq(type_view(v@[j].1), strs_view(params@), types_view(args@)),
        decreases v.len() - i,
    {
        let t = subst_params(&v[i].1, params, args);
        r.push((v[i].0.clone(), t));
        i = i + 1;
    }
    assert(typed_names_view(r@) =~= subst_fields(typed_names_view(v@), strs_view(params@), types_view(args@)));
    r
}

// ── Instantiations ──────────────────────────────────────────────────────

fn inst_has(insts: &Vec<(String, Vec<Type>)>, name: &str, args: &Vec<Type>) -> (r: bool)
    ensures
        r == exists|i: int| 0 <= i < insts@.len() && #[trigger] insts@[i].0@ == name@ && same_args(insts@[i].1, *args),
        r == exists|i: int| 0 <= i < insts_view(insts@).len() && insts_view(insts@)[i] == (name@, types_view(args@)),
{
    let ghost iv = insts_view(insts@);
    let mut i: usize = 0;
    while i < insts.len()
        invariant
            i <= insts@.len(),
            iv == insts_view(insts@),
            forall|j: int| 0 <= j < i ==> !(#[trigger] insts@[j].0@ == name@ && same_args(insts@[j].1, *args)),
        decreases insts.len() - i,
    {
        if str_eq(insts[i].0.as_str(), name) && type_list_eq(&insts[i].1, args) {
            proof {
                assert(iv[i as int] == (insts@[i as int].0@, types_view(insts@[i as int].1@)));
            }
            return true;
        }
        i = i + 1;
    }
    proof {
        assert forall|j: int| 0 <= j < iv.len() implies iv[j] != (name@, types_view(args@)) by {
            assert(iv[j] == (insts@[j].0@, types_view(insts@[j].1@)));
        }
    }
    false
}

/// The type arguments of the first recorded instantiation of `name`.
fn first_inst(insts: &Vec<(String, Vec<Type>)>, name: &str) -> (r: Option<usize>)
    ensures
        r matches Some(i) ==> i < insts@.len() && insts@[i as int].0@ == name@,
        r is None ==> forall|i: int| 0 <= i < insts@.len() ==> insts@[i].0@ != name@,
        match r {
            Some(i) => first_inst_index(insts_view(insts@), name@) == Some(i as int),
            None => first_inst_index(insts_view(insts@), name@) is None,
        },
{
    let ghost iv = insts_view(insts@);
    let mut i: usize = 0;
    while i < insts.len()
        invariant
            i <= insts@.len(),
            iv == insts_view(insts@),
            forall|j: int| 0 <= j < i ==> insts@[j].0@ != name@,
        decreases insts.len() - i,
    {
        if str_eq(insts[i].0.as_str(), name) {
            proof {
                assert(iv[i as int].0 == name@);
                let c = choose|c: int| 0 <= c < iv.len() && iv[c].0 == name@ && forall|j: int| 0 <= j < c ==> iv[j].0 != name@;
                if c < i {
                    assert(iv[c].0 == insts@[c].0@);
                }
            }
            return Some(i);
        }
        i = i + 1;
    }
    proof {
        assert forall|j: int| 0 <= j < iv.len() implies iv[j].0 != name@ by {
            assert(iv[j].0 == insts@[j].0@);
        }
    }
    None
}

/// Records an instantiation unless it was recorded already.
fn add_inst(insts: &mut Vec<(String, Vec<Type>)>, name: &str, args: Vec<Type>)
    requires
        insts_wf(old(insts)@),
    ensures
        insts_wf(final(insts)@),
        insts_view(final(insts)@) == add_inst_spec(insts_view(old(insts)@), name@, types_view(args@)),
        exists|i: int| 0 <= i < final(insts)@.len() && #[trigger] final(insts)@[i].0@ == name@ && same_args(final(insts)@[i].1, args),
        final(insts)@.len() >= old(insts)@.len(),
        forall|i: int| 0 <= i < old(insts)@.len() ==> #[trigger] final(insts)@[i] == old(insts)@[i],
{
    if !inst_has(insts, name, &args) {
        let ghost a = args;
        insts.push((String::from_str(name), args));
        proof {
            let n = insts@.len() - 1;
            assert(insts@[n].0@ == name@);
            assert(same_args(insts@[n].1, a));
            assert forall|i: int, j: int| 0 <= i < j < insts@.len() implies !(#[trigger] insts@[i].0@ == #[trigger] insts@[j].0@ && same_args(insts@[i].1, insts@[j].1)) by {
                if j == n {
                    assert(insts@[i] == old(insts)@[i]);
                }
            }
            let ov = insts_view(old(insts)@);
            assert forall|i: int| 0 <= i < ov.len() implies ov[i] != (name@, types_view(a@)) by {
                assert(ov[i] == (old(insts)@[i].0@, types_view(old(insts)@[i].1@)));
            }
            assert(insts_view(insts@) =~= ov.push((name@, types_view(a@))));
        }
    } else {
        proof {
            let ov = insts_view(old(insts)@);
            let i = choose|i: int| 0 <= i < insts@.len() && #[trigger] insts@[i].0@ == name@ && same_args(insts@[i].1, args);
            assert(ov[i] == (name@, types_view(args@)));
        }
    }
}

/// The type arguments that a call gives a generic task: for each type
/// parameter, the literal type of the first argument passed for a
/// parameter declared with that type (`int` where there is none).
#[verifier::rlimit(100)]
#[verifier::spinoff_prover]
fn infer_call_args(type_params: &Vec<String>, params: &Vec<(String, Type)>, args: &Vec<Expr>) -> (r: Vec<Type>)
    ensures
        r@.len() == type_params@.len(),
        types_view(r@) == call_args_spec(strs_view(type_params@), typed_names_view(params@), exprs_view(args@)),
{
    let ghost tps = strs_view(type_params@);
    let ghost pv = typed_names_view(params@);
    let ghost av = exprs_view(args@);
    proof {
        lemma_exprs_view(args@);
    }
    let mut r: Vec<Type> = Vec::new();
    let mut k: usize = 0;
    while k < type_params.len()
        invariant
            k <= type_params@.len(),
            r@.len() == k,
            tps == strs_view(type_params@),
            pv == typed_names_view(params@),
            av == exprs_view(args@),
            av.len() == args@.len(),
            forall|j: int| 0 <= j < args@.len() ==> #[trigger] av[j] == args@[j]@,
            types_view(r@) == call_args_spec(tps, pv, av).take(k as int),
        decreases type_params.len() - k,
    {
        let mut found: Option<Type> = None;
        let mut i: usize = 0;
        while i < params.len() && found.is_none()
            invariant
                i <= params@.len(),
                k < type_params@.len(),
                tps == strs_view(type_params@),
                pv == typed_names_view(params@),
                av.len() == args@.len(),
                forall|j: int| 0 <= j < args@.len() ==> #[trigger] av[j] == args@[j]@,
                found is None ==> forall|j: int| 0 <= j < i ==> !(pv[j].1 == SpecType::Generic(tps[k as int]) && j < av.len()),
                found matches Some(t) ==> i >= 1 && param_arg_index(pv, tps[k as int], av.len() as int) == Some(i - 1)
                    && t@ == literal_type(av[i - 1]),
            decreases params.len() - i,
        {
            let is_param = match &params[i].1 {
                Type::Generic(g) => str_eq(g.as_str(), type_params[k].as_str()),
                _ => false,
            };
            proof {
                assert(pv[i as int] == (params@[i as int].0@, type_view(params@[i as int].1)));
                assert(is_param == (pv[i as int].1 == SpecType::Generic(tps[k as int])));
            }
            if is_param && i < args.len() {
                found = Some(infer_expr_type(&args[i]));
                proof {
                    let c = choose|c: int| 0 <= c < pv.len() && pv[c].1 == SpecType::Generic(tps[k as int]) && c < av.len()
                        && forall|j: int| 0 <= j < c ==> !(pv[j].1 == SpecType::Generic(tps[k as int]) && j < av.len());
                    assert(c == i);
                }
            }
            i = i + 1;
        }
        let ghost before = r@;
        match found {
            Some(t) => r.push(t),
            None => r.push(Type::Int),
        }
        proof {
            if found is None {
                assert(param_arg_index(pv, tps[k as int], av.len() as int) is None);
            }
            lemma_types_view_push(before, r@.last());
            assert(before.push(r@.last()) =~= r@);
            assert(call_args_spec(tps, pv, av).take(k + 1) =~= call_args_spec(tps, pv, av).take(k as int).push(call_args_spec(tps, pv, av)[k as int]));
        }
        k = k + 1;
    }
    proof {
        assert(call_args_spec(tps, pv, av).take(type_params@.len() as int) =~= call_args_spec(tps, pv, av));
    }
    r
}

/// The type arguments that a struct literal gives a generic struct: for
/// each type parameter, the literal type of the value given to the first
/// field declared with that type (`int` where there is none).
/// The first value given for the field named `f` (see `value_index`).
fn find_value(values: &Vec<(String, Expr)>, f: &String) -> (r: Option<usize>)
    ensures
        match r {
            Some(j) => value_index(named_view(values@), f@) == Some(j as int) && j < values@.len(),
            None => value_index(named_view(values@), f@) is None,
        },
{
    let ghost vv = named_view(values@);
    proof {
        lemma_named_view(values@);
    }
    let mut j: usize = 0;
    while j < values.len()
        invariant
            j <= values@.len(),
            vv == named_view(values@),
            vv.len() == values@.len(),
            forall|m: int| 0 <= m < values@.len() ==> #[trigger] vv[m] == (values@[m].0@, values@[m].1@),
            forall|m: int| 0 <= m < j ==> vv[m].0 != f@,
        decreases values.len() - j,
    {
        if str_eq(values[j].0.as_str(), f.as_str()) {
            proof {
                assert(vv[j as int].0 == f@);
                let c = choose|c: int| 0 <= c < vv.len() && vv[c].0 == f@ && forall|m: int| 0 <= m < c ==> vv[m].0 != f@;
                assert(c == j);
            }
            return Some(j);
        }
        proof {
            assert(vv[j as int].0 != f@);
        }
        j = j + 1;
    }
    None
}

/// The first field declared with the type parameter `tp` that the literal
/// gives a value (see `field_with_value`), with that value's index.
#[verifier::rlimit(100)]
#[verifier::spinoff_prover]
fn find_field_with_value(fields: &Vec<(String, Type)>, tp: &String, values: &Vec<(String, Expr)>) -> (r: Option<(usize, usize)>)
    ensures
        match r {
            Some((i, j)) => field_with_value(typed_names_view(fields@), tp@, named_view(values@)) == Some(i as int)
                && i < fields@.len() && value_index(named_view(values@), fields@[i as int].0@) == Some(j as int)
                && j < values@.len(),
            None => field_with_value(typed_names_view(fields@), tp@, named_view(values@)) is None,
        },
{
    let ghost fv = typed_names_view(fields@);
    let ghost vv = named_view(values@);
    let mut i: usize = 0;
    while i < fields.len()
        invariant
            i <= fields@.len(),
            fv == typed_names_view(fields@),
            vv == named_view(values@),
            forall|m: int| 0 <= m < i ==> !(fv[m].1 == SpecType::Generic(tp@) && value_index(vv, fv[m].0) is Some),
        decreases fields.len() - i,
    {
        let is_param = match &fields[i].1 {
            Type::Generic(g) => str_eq(g.as_str(), tp.as_str()),
            _ => false,
        };
        proof {
            assert(fv[i as int] == (fields@[i as int].0@, type_view(fields@[i as int].1)));
            assert(is_param == (fv[i as int].1 == SpecType::Generic(tp@)));
        }
        if is_param {
            match find_value(values, &fields[i].0) {
                Some(j) => {
                    proof {
                        let c = choose|c: int| 0 <= c < fv.len() && fv[c].1 == SpecType::Generic(tp@) && value_index(vv, fv[c].0) is Some
                            && forall|m: int| 0 <= m < c ==> !(fv[m].1 == SpecType::Generic(tp@) && value_index(vv, fv[m].0) is Some);
                        assert(c == i);
                    }
                    return Some((i, j));
                },
                None => {},
            }
        }
        i = i + 1;
    }
    None
}

#[verifier::rlimit(100)]
#[verifier::spinoff_prover]
fn infer_struct_args(type_params: &Vec<String>, fields: &Vec<(String, Type)>, values: &Vec<(String, Expr)>) -> (r: Vec<Type>)
    ensures
        r@.len() == type_params@.len(),
        types_view(r@) == struct_args_spec(strs_view(type_params@), typed_names_view(fields@), named_view(values@)),
{
    let ghost tps = strs_view(type_params@);
    let ghost fv = typed_names_view(fields@);
    let ghost vv = named_view(values@);
    proof {
        lemma_named_view(values@);
    }
    let mut r: Vec<Type> = Vec::new();
    let mut k: usize = 0;
    while k < type_params.len()
        invariant
            k <= type_params@.len(),
            r@.len() == k,
            tps == strs_view(type_params@),
            fv == typed_names_view(fields@),
            vv == named_view(values@),
            vv.len() == values@.len(),
            forall|j: int| 0 <= j < values@.len() ==> #[trigger] vv[j] == (values@[j].0@, values@[j].1@),
            types_view(r@) == struct_args_spec(tps, fv, vv).take(k as int),
        decreases type_params.len() - k,
    {
        let ghost before = r@;
        match find_field_with_value(fields, &type_params[k], values) {
            Some((i, j)) => {
                let t = infer_expr_type(&values[j].1);
                proof {
                    assert(fv[i as int].0 == fields@[i as int].0@);
                }
                r.push(t);
            },
            None => r.push(Type::Int),
        }
        proof {
            lemma_types_view_push(before, r@.last());
            assert(before.push(r@.last()) =~= r@);
            assert(struct_args_spec(tps, fv, vv).take(k + 1) =~= struct_args_spec(tps, fv, vv).take(k as int).push(struct_args_spec(tps, fv, vv)[k as int]));
        }
        k = k + 1;
    }
    proof {
        assert(struct_args_spec(tps, fv, vv).take(type_params@.len() as int) =~= struct_args_spec(tps, fv, vv));
    }
    r
}

#[verifier::rlimit(100)]
#[verifier::spinoff_prover]
fn record_call(func: &Expr, args: &Vec<Expr>, defs: &Vec<TaskDef>, task_inst: &mut Vec<(String, Vec<Type>)>)
    requires
        insts_wf(old(task_inst)@),
    ensures
        insts_wf(final(task_inst)@),
        insts_view(final(task_inst)@) == call_inst_step(func@, exprs_view(args@), task_defs_view(defs@), insts_view(old(task_inst)@)),
{
    match func {
        Expr::Identifier(name) => {
            match find_task(defs, name.as_str()) {
                Some(k) => {
                    let inferred = infer_call_args(&defs[k].type_params, &defs[k].params, args);
                    proof {
                        assert(task_defs_view(defs@)[k as int] == task_def_view(defs@[k as int]));
                    }
                    add_inst(task_inst, name.as_str(), inferred);
                },
                None => {},
            }
        },
        _ => {},
    }
}

fn record_struct_literal(name: &String, fields: &Vec<(String, Expr)>, structs: &Vec<StructDef>, struct_inst: &mut Vec<(String, Vec<Type>)>)
    requires
        insts_wf(old(struct_inst)@),
    ensures
        insts_wf(final(struct_inst)@),
        insts_view(final(struct_inst)@) == struct_inst_step(name@, named_view(fields@), struct_defs_view(structs@), insts_view(old(struct_inst)@)),
{
    match find_struct(structs, name.as_str()) {
        Some(k) => {
            let inferred = infer_struct_args(&structs[k].type_params, &structs[k].fields, fields);
            proof {
                assert(struct_defs_view(structs@)[k as int] == struct_def_view(structs@[k as int]));
            }
            add_inst(struct_inst, name.as_str(), inferred);
        },
        None => {},
    }
}

fn collect_from_exprs(
    v: &Vec<Expr>,
    defs: &Vec<TaskDef>,
    structs: &Vec<StructDef>,
    task_inst: &mut Vec<(String, Vec<Type>)>,
    struct_inst: &mut Vec<(String, Vec<Type>)>,
)
    requires
        insts_wf(old(task_inst)@),
        insts_wf(old(struct_inst)@),
    ensures
        insts_wf(final(task_inst)@),
        insts_wf(final(struct_inst)@),
        (insts_view(final(task_inst)@), insts_view(final(struct_inst)@)) == collect_exprs_spec(exprs_view(v@),
            task_defs_view(defs@), struct_defs_view(structs@), (insts_view(old(task_inst)@), insts_view(old(struct_inst)@))),
    decreases v,
{
    let ghost t = task_defs_view(defs@);
    let ghost sd = struct_defs_view(structs@);
    let ghost st0 = (insts_view(task_inst@), insts_view(struct_inst@));
    let mut i: usize = 0;
    while i < v.len()
        invariant
            i <= v@.len(),
            insts_wf(task_inst@),
            insts_wf(struct_inst@),
            t == task_defs_view(defs@),
            sd == struct_defs_view(structs@),
            (insts_view(task_inst@), insts_view(struct_inst@)) == collect_exprs_spec(exprs_view(v@.take(i as int)), t, sd, st0),
        decreases v.len() - i,
    {
        proof {
            lemma_exprs_view_push(v@.take(i as int), v@[i as int]);
            assert(v@.take(i as int).push(v@[i as int]) =~= v@.take(i + 1));
            assert(exprs_view(v@.take(i + 1)).drop_last() =~= exprs_view(v@.take(i as int)));
        }
        collect_from_expr(&v[i], defs, structs, task_inst, struct_inst);
        i = i + 1;
    }
    assert(v@.take(v@.len() as int) =~= v@);
}

fn collect_from_named(
    v: &Vec<(String, Expr)>,
    defs: &Vec<TaskDef>,
    structs: &Vec<StructDef>,
    task_inst: &mut Vec<(String, Vec<Type>)>,
    struct_inst: &mut Vec<(String, Vec<Type>)>,
)
    requires
        insts_wf(old(task_inst)@),
        insts_wf(old(struct_inst)@),
    ensures
        insts_wf(final(task_inst)@),
        insts_wf(final(struct_inst)@),
        (insts_view(final(task_inst)@), insts_view(final(struct_inst)@)) == collect_named_spec(named_view(v@),
            task_defs_view(defs@), struct_defs_view(structs@), (insts_view(old(task_inst)@), insts_view(old(struct_inst)@))),
    decreases v,
{
    let ghost t = task_defs_view(defs@);
    let ghost sd = struct_defs_view(structs@);
    let ghost st0 = (insts_view(task_inst@), insts_view(struct_inst@));
    let mut i: usize = 0;
    while i < v.len()
        invariant
            i <= v@.len(),
            insts_wf(task_inst@),
            insts_wf(struct_inst@),
            t == task_defs_view(defs@),
            sd == struct_defs_view(structs@),
            (insts_view(task_inst@), insts_view(struct_inst@)) == collect_named_spec(named_view(v@.take(i as int)), t, sd, st0),
        decreases v.len() - i,
    {
        proof {
            lemma_named_elem_push(v@.take(i as int), v@[i as int]);
            assert(v@.take(i as int).push(v@[i as int]) =~= v@.take(i + 1));
            assert(named_view(v@.take(i + 1)).drop_last() =~= named_view(v@.take(i as int)));
        }
        collect_from_expr(&v[i].1, defs, structs, task_inst, struct_inst);
        i = i + 1;
    }
    assert(v@.take(v@.len() as int) =~= v@);
}

#[verifier::rlimit(60)]
fn collect_from_expr(
    expr: &Expr,
    defs: &Vec<TaskDef>,
    structs: &Vec<StructDef>,
    task_inst: &mut Vec<(String, Vec<Type>)>,
    struct_inst: &mut Vec<(String, Vec<Type>)>,
)
    requires
        insts_wf(old(task_inst)@),
        insts_wf(old(struct_inst)@),
    ensures
        insts_wf(final(task_inst)@),
        insts_wf(final(struct_inst)@),
        (insts_view(final(task_inst)@), insts_view(final(struct_inst)@)) == collect_expr_spec(expr@,
            task_defs_view(defs@), struct_defs_view(structs@), (insts_view(old(task_inst)@), insts_view(old(struct_inst)@))),
    decreases expr,
{
    match expr {
        Expr::Call { func, args, .. } => {
            record_call(func, args, defs, task_inst);
            collect_from_exprs(args, defs, structs, task_inst, struct_inst);
        },
        Expr::StructLiteral { name, fields } => {
            record_struct_literal(name, fields, structs, struct_inst);
            collect_from_named(fields, defs, structs, task_inst, struct_inst);
        },
        Expr::BinaryOp { left, right, .. } => {
            collect_from_expr(left, defs, structs, task_inst, struct_inst);
            collect_from_expr(right, defs, structs, task_inst, struct_inst);
        },
        Expr::UnaryOp { operand, .. } => {
            collect_from_expr(operand, defs, structs, task_inst, struct_inst);
        },
        _ => {},
    }
}

fn collect_from_block(
    block: &Block,
    defs: &Vec<TaskDef>,
    structs: &Vec<StructDef>,
    task_inst: &mut Vec<(String, Vec<Type>)>,
    struct_inst: &mut Vec<(String, Vec<Type>)>,
)
    requires
        insts_wf(old(task_inst)@),
        insts_wf(old(struct_inst)@),
    ensures
        insts_wf(final(task_inst)@),
        insts_wf(final(struct_inst)@),
        (insts_view(final(task_inst)@), insts_view(final(struct_inst)@)) == collect_block_spec(block@,
            task_defs_view(defs@), struct_defs_view(structs@), (insts_view(old(task_inst)@), insts_view(old(struct_inst)@))),
    decreases block,
{
    let ghost t = task_defs_view(defs@);
    let ghost sd = struct_defs_view(structs@);
    let ghost st0 = (insts_view(task_inst@), insts_view(struct_inst@));
    let mut i: usize = 0;
    while i < block.statements.len()
        invariant
            i <= block.statements@.len(),
            insts_wf(task_inst@),
            insts_wf(struct_inst@),
            t == task_defs_view(defs@),
            sd == struct_defs_view(structs@),
            (insts_view(task_inst@), insts_view(struct_inst@)) == collect_stmts_spec(stmts_view(block.statements@.take(i as int)), t, sd, st0),
        decreases block.statements.len() - i,
    {
        proof {
            lemma_stmts_view_push(block.statements@.take(i as int), block.statements@[i as int]);
            assert(block.statements@.take(i as int).push(block.statements@[i as int]) =~= block.statements@.take(i + 1));
            assert(stmts_view(block.statements@.take(i + 1)).drop_last() =~= stmts_view(block.statements@.take(i as int)));
        }
        collect_from_stmt(&block.statements[i], defs, structs, task_inst, struct_inst);
        i = i + 1;
    }
    assert(block.statements@.take(block.statements@.len() as int) =~= block.statements@);
    match &block.tail_expr {
        Some(tail) => collect_from_expr(tail, defs, structs, task_inst, struct_inst),
        None => {},
    }
}

#[verifier::rlimit(100)]
#[verifier::spinoff_prover]
fn collect_from_stmt(
    stmt: &Stmt,
    defs: &Vec<TaskDef>,
    structs: &Vec<StructDef>,
    task_inst: &mut Vec<(String, Vec<Type>)>,
    struct_inst: &mut Vec<(String, Vec<Type>)>,
)
    requires
        insts_wf(old(task_inst)@),
        insts_wf(old(struct_inst)@),
    ensures
        insts_wf(final(task_inst)@),
        insts_wf(final(struct_inst)@),
        (insts_view(final(task_inst)@), insts_view(final(struct_inst)@)) == collect_stmt_spec(stmt@,
            task_defs_view(defs@), struct_defs_view(structs@), (insts_view(old(task_inst)@), insts_view(old(struct_inst)@))),
    decreases stmt,
{
    match stmt {
        Stmt::VarDecl { value, .. } => collect_from_expr(value, defs, structs, task_inst, struct_inst),
        Stmt::Assign { value, .. } => collect_from_expr(value, defs, structs, task_inst, struct_inst),
        Stmt::TaskDecl { type_params, body, .. } => {
            if type_params.len() == 0 {
                collect_from_block(body, defs, structs, task_inst, struct_inst);
            }
        },
        Stmt::Check { condition, then_block, else_block } => {
            collect_from_expr(condition, defs, structs, task_inst, struct_inst);
            collect_from_block(then_block, defs, structs, task_inst, struct_inst);
            match else_block {
                Some(eb) => collect_from_block(eb, defs, structs, task_inst, struct_inst),
                None => {},
            }
        },
        Stmt::Loop { body, .. } => collect_from_block(body, defs, structs, task_inst, struct_inst),
        Stmt::ExprStmt(e) => collect_from_expr(e, defs, structs, task_inst, struct_inst),
        Stmt::Print(e) => collect_from_expr(e, defs, structs, task_inst, struct_inst),
        Stmt::Return(Some(e)) => collect_from_expr(e, defs, structs, task_inst, struct_inst),
        Stmt::PrintFmt { args, .. } => collect_from_exprs(args, defs, structs, task_inst, struct_inst),
        _ => {},
    }
}

// ── Renaming uses ───────────────────────────────────────────────────────

fn rewrite_exprs(
    v: &Vec<Expr>,
    defs: &Vec<TaskDef>,
    structs: &Vec<StructDef>,
    task_inst: &Vec<(String, Vec<Type>)>,
    struct_inst: &Vec<(String, Vec<Type>)>,
) -> (r: Vec<Expr>)
    ensures
        exprs_view(r@) == rewrite_exprs_spec(exprs_view(v@), task_defs_view(defs@), struct_defs_view(structs@), insts_view(task_inst@), insts_view(struct_inst@)),
    decreases v,
{
    let mut r: Vec<Expr> = Vec::new();
    let mut i: usize = 0;
    while i < v.len()
        invariant
            i <= v@.len(),
            exprs_view(r@) == rewrite_exprs_spec(exprs_view(v@.take(i as int)), task_defs_view(defs@), struct_defs_view(structs@), insts_view(task_inst@), insts_view(struct_inst@)),
        decreases v.len() - i,
    {
        let e = rewrite_expr(&v[i], defs, structs, task_inst, struct_inst);
        proof {
            lemma_exprs_view_push(r@, e);
            lemma_exprs_view_push(v@.take(i as int), v@[i as int]);
            assert(v@.take(i as int).push(v@[i as int]) =~= v@.take(i + 1));
            assert(exprs_view(v@.take(i + 1)).drop_last() =~= exprs_view(v@.take(i as int)));
        }
        r.push(e);
        i = i + 1;
    }
    assert(v@.take(v@.len() as int) =~= v@);
    r
}

fn rewrite_named(
    v: &Vec<(String, Expr)>,
    defs: &Vec<TaskDef>,
    structs: &Vec<StructDef>,
    task_inst: &Vec<(String, Vec<Type>)>,
    struct_inst: &Vec<(String, Vec<Type>)>,
) -> (r: Vec<(String, Expr)>)
    ensures
        named_view(r@) == rewrite_named_spec(named_view(v@), task_defs_view(defs@), struct_defs_view(structs@), insts_view(task_inst@), insts_view(struct_inst@)),
    decreases v,
{
    let mut r: Vec<(String, Expr)> = Vec::new();
    let mut i: usize = 0;
    while i < v.len()
        invariant
            i <= v@.len(),
            named_view(r@) == rewrite_named_spec(named_view(v@.take(i as int)), task_defs_view(defs@), struct_defs_view(structs@), insts_view(task_inst@), insts_view(struct_inst@)),
        decreases v.len() - i,
    {
        let e = rewrite_expr(&v[i].1, defs, structs, task_inst, struct_inst);
        let p = (v[i].0.clone(), e);
        proof {
            lemma_named_elem_push(r@, p);
            lemma_named_elem_push(v@.take(i as int), v@[i as int]);
            assert(v@.take(i as int).push(v@[i as int]) =~= v@.take(i + 1));
            assert(named_view(v@.take(i + 1)).drop_last() =~= named_view(v@.take(i as int)));
        }
        r.push(p);
        i = i + 1;
    }
    assert(v@.take(v@.len() as int) =~= v@);
    r
}

/// `expr` with calls of generic tasks and literals of generic structs
/// renamed to the concrete copies recorded for them.
/// The name of a plain identifier expression.
#[verifier::rlimit(100)]
#[verifier::spinoff_prover]
fn ident_name(e: &Expr) -> (r: Option<&String>)
    ensures
        match r {
            Some(n) => e@ == SpecExpr::Identifier(n@),
            None => !(e@ is Identifier),
        },
{
    match e {
        Expr::Identifier(n) => Some(n),
        _ => None,
    }
}

#[verifier::rlimit(100)]
#[verifier::spinoff_prover]
fn call_rename(func: &Expr, args: &Vec<Expr>, defs: &Vec<TaskDef>, task_inst: &Vec<(String, Vec<Type>)>) -> (r: Option<String>)
    ensures
        match r {
            Some(c) => rename_call(func@, exprs_view(args@), task_defs_view(defs@), insts_view(task_inst@)) == Some(c@),
            None => rename_call(func@, exprs_view(args@), task_defs_view(defs@), insts_view(task_inst@)) is None,
        },
{
    match ident_name(func) {
        Some(name) => {
            match find_task(defs, name.as_str()) {
                Some(k) => {
                    let inferred = infer_call_args(&defs[k].type_params, &defs[k].params, args);
                    proof {
                        assert(task_defs_view(defs@)[k as int] == task_def_view(defs@[k as int]));
                    }
                    if inst_has(task_inst, name.as_str(), &inferred) {
                        Some(make_concrete_name(name.as_str(), &inferred))
                    } else {
                        None
                    }
                },
                None => None,
            }
        },
        None => None,
    }
}

#[verifier::rlimit(100)]
#[verifier::spinoff_prover]
fn struct_rename(name: &String, structs: &Vec<StructDef>, struct_inst: &Vec<(String, Vec<Type>)>) -> (r: Option<String>)
    ensures
        match r {
            Some(c) => rename_struct(name@, struct_defs_view(structs@), insts_view(struct_inst@)) == Some(c@),
            None => rename_struct(name@, struct_defs_view(structs@), insts_view(struct_inst@)) is None,
        },
{
    match find_struct(structs, name.as_str()) {
        Some(_) => {
            match first_inst(struct_inst, name.as_str()) {
                Some(k) => {
                    proof {
                        assert(insts_view(struct_inst@)[k as int] == (struct_inst@[k as int].0@, types_view(struct_inst@[k as int].1@)));
                    }
                    Some(make_concrete_name(name.as_str(), &struct_inst[k].1))
                },
                None => None,
            }
        },
        None => None,
    }
}

/// The expression forms the renaming looks into.
pub open spec fn renames(e: SpecExpr) -> bool {
    e is Call || e is StructLiteral || e is BinaryOp || e is UnaryOp
}

#[verifier::rlimit(100)]
#[verifier::spinoff_prover]
fn renames_exec(e: &Expr) -> (b: bool)
    ensures
        b == renames(e@),
        b == (e is Call || e is StructLiteral || e is BinaryOp || e is UnaryOp),
{
    match e {
        Expr::Call { .. } | Expr::StructLiteral { .. } | Expr::BinaryOp { .. } | Expr::UnaryOp { .. } => true,
        _ => false,
    }
}

/// `expr` with calls of generic tasks and literals of generic structs
/// renamed to the concrete copies recorded for them.
#[verifier::rlimit(100)]
#[verifier::spinoff_prover]
fn rewrite_expr(
    expr: &Expr,
    defs: &Vec<TaskDef>,
    structs: &Vec<StructDef>,
    task_inst: &Vec<(String, Vec<Type>)>,
    struct_inst: &Vec<(String, Vec<Type>)>,
) -> (r: Expr)
    ensures
        r@ == rewrite_expr_spec(expr@, task_defs_view(defs@), struct_defs_view(structs@), insts_view(task_inst@), insts_view(struct_inst@)),
    decreases expr,
{
    if !renames_exec(expr) {
        return copy_expr(expr);
    }
    match expr {
        Expr::Call { func, args, named } => {
            proof {
                assert(expr@ == SpecExpr::Call { func: Box::new(func@), args: exprs_view(args@), named: named_view(named@) });
            }
            let a2 = rewrite_exprs(args, defs, structs, task_inst, struct_inst);
            match call_rename(func, args, defs, task_inst) {
                Some(c) => {
                    let ghost cv = c@;
                    let fe = Expr::Identifier(c);
                    assert(fe@ == SpecExpr::Identifier(cv));
                    let r = Expr::Call { func: Box::new(fe), args: a2, named: copy_named(named) };
                    r
                },
                None => {
                    let r = Expr::Call { func: Box::new(copy_expr(func)), args: a2, named: copy_named(named) };
                    assert(r@ == SpecExpr::Call { func: Box::new(func@), args: exprs_view(a2@), named: named_view(named@) });
                    r
                },
            }
        },
        Expr::StructLiteral { name, fields } => {
            proof {
                assert(expr@ == SpecExpr::StructLiteral { name: name@, fields: named_view(fields@) });
            }
            let f2 = rewrite_named(fields, defs, structs, task_inst, struct_inst);
            match struct_rename(name, structs, struct_inst) {
                Some(c) => Expr::StructLiteral { name: c, fields: f2 },
                None => Expr::StructLiteral { name: name.clone(), fields: f2 },
            }
        },
        Expr::BinaryOp { left, op, right } => Expr::BinaryOp {
            left: Box::new(rewrite_expr(left, defs, structs, task_inst, struct_inst)),
            op: *op,
            right: Box::new(rewrite_expr(right, defs, structs, task_inst, struct_inst)),
        },
        Expr::UnaryOp { op, operand } => Expr::UnaryOp {
            op: *op,
            operand: Box::new(rewrite_expr(operand, defs, structs, task_inst, struct_inst)),
        },
        _ => {
            proof {
                assert(false);
            }
            copy_expr(expr)
        },
    }
}

fn rewrite_stmts(
    v: &Vec<Stmt>,
    defs: &Vec<TaskDef>,
    structs: &Vec<StructDef>,
    task_inst: &Vec<(String, Vec<Type>)>,
    struct_inst: &Vec<(String, Vec<Type>)>,
) -> (r: Vec<Stmt>)
    ensures
        stmts_view(r@) == rewrite_stmts_spec(stmts_view(v@), task_defs_view(defs@), struct_defs_view(structs@), insts_view(task_inst@), insts_view(struct_inst@)),
    decreases v,
{
    let mut r: Vec<Stmt> = Vec::new();
    let mut i: usize = 0;
    while i < v.len()
        invariant
            i <= v@.len(),
            stmts_view(r@) == rewrite_stmts_spec(stmts_view(v@.take(i as int)), task_defs_view(defs@), struct_defs_view(structs@), insts_view(task_inst@), insts_view(struct_inst@)),
        decreases v.len() - i,
    {
        let s = rewrite_stmt(&v[i], defs, structs, task_inst, struct_inst);
        proof {
            lemma_stmts_view_push(r@, s);
            lemma_stmts_view_push(v@.take(i as int), v@[i as int]);
            assert(v@.take(i as int).push(v@[i as int]) =~= v@.take(i + 1));
            assert(stmts_view(v@.take(i + 1)).drop_last() =~= stmts_view(v@.take(i as int)));
        }
        r.push(s);
        i = i + 1;
    }
    assert(v@.take(v@.len() as int) =~= v@);
    r
}

fn rewrite_block(
    block: &Block,
    defs: &Vec<TaskDef>,
    structs: &Vec<StructDef>,
    task_inst: &Vec<(String, Vec<Type>)>,
    struct_inst: &Vec<(String, Vec<Type>)>,
) -> (r: Block)
    ensures
        r@ == rewrite_block_spec(block@, task_defs_view(defs@), struct_defs_view(structs@), insts_view(task_inst@), insts_view(struct_inst@)),
    decreases block,
{
    let statements = rewrite_stmts(&block.statements, defs, structs, task_inst, struct_inst);
    let tail_expr = match &block.tail_expr {
        Some(e) => Some(rewrite_expr(e, defs, structs, task_inst, struct_inst)),
        None => None,
    };
    Block { statements, tail_expr }
}

fn rewrite_kind(
    kind: &LoopKind,
    defs: &Vec<TaskDef>,
    structs: &Vec<StructDef>,
    task_inst: &Vec<(String, Vec<Type>)>,
    struct_inst: &Vec<(String, Vec<Type>)>,
) -> (r: LoopKind)
    ensures
        loop_kind_view(r) == rewrite_kind_spec(loop_kind_view(*kind), task_defs_view(defs@), struct_defs_view(structs@), insts_view(task_inst@), insts_view(struct_inst@)),
{
    match kind {
        LoopKind::Times(e) => LoopKind::Times(rewrite_expr(e, defs, structs, task_inst, struct_inst)),
        LoopKind::While(e) => LoopKind::While(rewrite_expr(e, defs, structs, task_inst, struct_inst)),
        LoopKind::FromTo { var, from, to } => LoopKind::FromTo {
            var: var.clone(),
            from: rewrite_expr(from, defs, structs, task_inst, struct_inst),
            to: rewrite_expr(to, defs, structs, task_inst, struct_inst),
        },
        LoopKind::ForEach { var, iterable } => LoopKind::ForEach {
            var: var.clone(),
            iterable: rewrite_expr(iterable, defs, structs, task_inst, struct_inst),
        },
        LoopKind::Range { var, range } => LoopKind::Range {
            var: var.clone(),
            range: rewrite_expr(range, defs, structs, task_inst, struct_inst),
        },
        LoopKind::Infinite => LoopKind::Infinite,
    }
}

/// The statement forms the renaming looks into.
pub open spec fn rewrites_stmt(s: SpecStmt) -> bool {
    ||| s is ExprStmt
    ||| s is Print
    ||| (s matches SpecStmt::Return(Some(_)))
    ||| s is VarDecl
    ||| s is Assign
    ||| s is Check
    ||| s is Loop
    ||| s is TaskDecl
}

#[verifier::rlimit(100)]
#[verifier::spinoff_prover]
fn rewrites_stmt_exec(s: &Stmt) -> (b: bool)
    ensures
        b == rewrites_stmt(s@),
        b == (s is ExprStmt || s is Print || (s matches Stmt::Return(Some(_))) || s is VarDecl || s is Assign || s is Check
            || s is Loop || s is TaskDecl),
{
    match s {
        Stmt::ExprStmt(_) | Stmt::Print(_) | Stmt::Return(Some(_)) | Stmt::VarDecl { .. } | Stmt::Assign { .. }
        | Stmt::Check { .. } | Stmt::Loop { .. } | Stmt::TaskDecl { .. } => true,
        _ => false,
    }
}

/// `stmt` with its uses of generic tasks and structs renamed; whether it
/// is itself a generic declaration does not change.
#[verifier::rlimit(100)]
#[verifier::spinoff_prover]
fn rewrite_stmt(
    stmt: &Stmt,
    defs: &Vec<TaskDef>,
    structs: &Vec<StructDef>,
    task_inst: &Vec<(String, Vec<Type>)>,
    struct_inst: &Vec<(String, Vec<Type>)>,
) -> (r: Stmt)
    ensures
        is_generic_decl(r@) == is_generic_decl(stmt@),
        r@ == rewrite_stmt_spec(stmt@, task_defs_view(defs@), struct_defs_view(structs@), insts_view(task_inst@), insts_view(struct_inst@)),
    decreases stmt,
{
    if !rewrites_stmt_exec(stmt) {
        return copy_stmt(stmt);
    }
    match stmt {
        Stmt::ExprStmt(e) => Stmt::ExprStmt(rewrite_expr(e, defs, structs, task_inst, struct_inst)),
        Stmt::Print(e) => Stmt::Print(rewrite_expr(e, defs, structs, task_inst, struct_inst)),
        Stmt::Return(Some(e)) => Stmt::Return(Some(rewrite_expr(e, defs, structs, task_inst, struct_inst))),
        Stmt::VarDecl { name, ty, value, sensitive } => Stmt::VarDecl {
            name: name.clone(),
            ty: copy_opt_type(ty),
            value: rewrite_expr(value, defs, structs, task_inst, struct_inst),
            sensitive: *sensitive,
        },
        Stmt::Assign { name, value } => Stmt::Assign {
            name: name.clone(),
            value: rewrite_expr(value, defs, structs, task_inst, struct_inst),
        },
        Stmt::Check { condition, then_block, else_block } => Stmt::Check {
            condition: rewrite_expr(condition, defs, structs, task_inst, struct_inst),
            then_block: rewrite_block(then_block, defs, structs, task_inst, struct_inst),
            else_block: match else_block {
                Some(b) => Some(rewrite_block(b, defs, structs, task_inst, struct_inst)),
                None => None,
            },
        },
        Stmt::Loop { kind, body } => {
            let new_kind = rewrite_kind(kind, defs, structs, task_inst, struct_inst);
            Stmt::Loop { kind: new_kind, body: rewrite_block(body, defs, structs, task_inst, struct_inst) }
        },
        Stmt::TaskDecl { name, type_params, constraints, params, return_type, body, is_inline, is_async } => {
            if type_params.len() == 0 {
                let empty: Vec<String> = Vec::new();
                proof {
                    assert(strs_view(empty@) =~= strs_view(type_params@));
                }
                Stmt::TaskDecl {
                    name: name.clone(),
                    type_params: empty,
                    constraints: copy_constraints(constraints),
                    params: copy_typed_names(params),
                    return_type: copy_type(return_type),
                    body: rewrite_block(body, defs, structs, task_inst, struct_inst),
                    is_inline: *is_inline,
                    is_async: *is_async,
                }
            } else {
                copy_stmt(stmt)
            }
        },
        _ => {
            proof {
                assert(false);
            }
            copy_stmt(stmt)
        },
    }
}

// ── Substituting type arguments in a task body ──────────────────────────

/// `e` with the type parameters `ps` replaced by `args` in its casts (and
/// in the casts inside it, through operators, calls, indexing and struct
/// literals).
pub open spec fn subst_expr(e: SpecExpr, ps: Seq<Seq<char>>, args: Seq<SpecType>) -> SpecExpr
    decreases e,
{
    match e {
        SpecExpr::Cast { expr, to } => SpecExpr::Cast { expr: Box::new(subst_expr(*expr, ps, args)), to: subst_seq(to, ps, args) },
        SpecExpr::BinaryOp { left, op, right } => SpecExpr::BinaryOp {
            left: Box::new(subst_expr(*left, ps, args)),
            op,
            right: Box::new(subst_expr(*right, ps, args)),
        },
        SpecExpr::UnaryOp { op, operand } => SpecExpr::UnaryOp { op, operand: Box::new(subst_expr(*operand, ps, args)) },
        SpecExpr::Call { func, args: a, named } => SpecExpr::Call { func, args: subst_exprs(a, ps, args), named },
        SpecExpr::Index { array, index } => SpecExpr::Index {
            array: Box::new(subst_expr(*array, ps, args)),
            index: Box::new(subst_expr(*index, ps, args)),
        },
        SpecExpr::StructLiteral { name, fields } => SpecExpr::StructLiteral { name, fields: subst_named(fields, ps, args) },
        _ => e,
    }
}

pub open spec fn subst_exprs(es: Seq<SpecExpr>, ps: Seq<Seq<char>>, args: Seq<SpecType>) -> Seq<SpecExpr>
    decreases es,
{
    if es.len() == 0 {
        Seq::empty()
    } else {
        subst_exprs(es.drop_last(), ps, args).push(subst_expr(es.last(), ps, args))
    }
}

pub open spec fn subst_named(ns: Seq<(Seq<char>, SpecExpr)>, ps: Seq<Seq<char>>, args: Seq<SpecType>) -> Seq<(Seq<char>, SpecExpr)>
    decreases ns,
{
    if ns.len() == 0 {
        Seq::empty()
    } else {
        subst_named(ns.drop_last(), ps, args).push((ns.last().0, subst_expr(ns.last().1, ps, args)))
    }
}

/// `s` with the type parameters replaced in its type annotation and its
/// expressions, through checks and loops.
pub open spec fn subst_stmt(s: SpecStmt, ps: Seq<Seq<char>>, args: Seq<SpecType>) -> SpecStmt
    decreases s,
{
    match s {
        SpecStmt::VarDecl { name, ty, value, sensitive } => SpecStmt::VarDecl {
            name,
            ty: if ty is Some { Some(subst_seq(ty->0, ps, args)) } else { None },
            value: subst_expr(value, ps, args),
            sensitive,
        },
        SpecStmt::Return(Some(e)) => SpecStmt::Return(Some(subst_expr(e, ps, args))),
        SpecStmt::ExprStmt(e) => SpecStmt::ExprStmt(subst_expr(e, ps, args)),
        SpecStmt::Print(e) => SpecStmt::Print(subst_expr(e, ps, args)),
        SpecStmt::Assign { name, value } => SpecStmt::Assign { name, value: subst_expr(value, ps, args) },
        SpecStmt::Check { condition, then_block, else_block } => SpecStmt::Check {
            condition: subst_expr(condition, ps, args),
            then_block: subst_block(then_block, ps, args),
            else_block: if else_block is Some { Some(subst_block(else_block->0, ps, args)) } else { None },
        },
        SpecStmt::Loop { kind, body } => SpecStmt::Loop {
            kind: match kind {
                SpecLoopKind::Times(e) => SpecLoopKind::Times(subst_expr(e, ps, args)),
                SpecLoopKind::While(e) => SpecLoopKind::While(subst_expr(e, ps, args)),
                SpecLoopKind::FromTo { var, from, to } => SpecLoopKind::FromTo {
                    var,
                    from: subst_expr(from, ps, args),
                    to: subst_expr(to, ps, args),
                },
                _ => kind,
            },
            body: subst_block(body, ps, args),
        },
        _ => s,
    }
}

pub open spec fn subst_stmts(ss: Seq<SpecStmt>, ps: Seq<Seq<char>>, args: Seq<SpecType>) -> Seq<SpecStmt>
    decreases ss,
{
    if ss.len() == 0 {
        Seq::empty()
    } else {
        subst_stmts(ss.drop_last(), ps, args).push(subst_stmt(ss.last(), ps, args))
    }
}

pub open spec fn subst_block(b: SpecBlock, ps: Seq<Seq<char>>, args: Seq<SpecType>) -> SpecBlock
    decreases b,
{
    SpecBlock {
        statements: subst_stmts(b.statements, ps, args),
        tail_expr: if b.tail_expr is Some { Some(subst_expr(b.tail_expr->0, ps, args)) } else { None },
    }
}

fn substitute_exprs(v: &Vec<Expr>, tp: &Vec<String>, ta: &Vec<Type>) -> (r: Vec<Expr>)
    ensures
        exprs_view(r@) == subst_exprs(exprs_view(v@), strs_view(tp@), types_view(ta@)),
        tp@.len() == 0 ==> exprs_view(r@) == exprs_view(v@),
    decreases v,
{
    let mut r: Vec<Expr> = Vec::new();
    let mut i: usize = 0;
    while i < v.len()
        invariant
            i <= v@.len(),
            tp@.len() == 0 ==> exprs_view(r@) == exprs_view(v@.take(i as int)),
            exprs_view(r@) == subst_exprs(exprs_view(v@.take(i as int)), strs_view(tp@), types_view(ta@)),
        decreases v.len() - i,
    {
        let e = substitute_expr(&v[i], tp, ta);
        proof {
            lemma_exprs_view_push(r@, e);
            lemma_exprs_view_push(v@.take(i as int), v@[i as int]);
            assert(v@.take(i as int).push(v@[i as int]) =~= v@.take(i + 1));
            let ev = exprs_view(v@.take(i as int)).push(v@[i as int]@);
            assert(ev.drop_last() =~= exprs_view(v@.take(i as int)));
        }
        r.push(e);
        i = i + 1;
    }
    assert(v@.take(v@.len() as int) =~= v@);
    r
}

fn substitute_named(v: &Vec<(String, Expr)>, tp: &Vec<String>, ta: &Vec<Type>) -> (r: Vec<(String, Expr)>)
    ensures
        named_view(r@) == subst_named(named_view(v@), strs_view(tp@), types_view(ta@)),
        tp@.len() == 0 ==> named_view(r@) == named_view(v@),
    decreases v,
{
    let mut r: Vec<(String, Expr)> = Vec::new();
    let mut i: usize = 0;
    while i < v.len()
        invariant
            i <= v@.len(),
            tp@.len() == 0 ==> named_view(r@) == named_view(v@.take(i as int)),
            named_view(r@) == subst_named(named_view(v@.take(i as int)), strs_view(tp@), types_view(ta@)),
        decreases v.len() - i,
    {
        let e = substitute_expr(&v[i].1, tp, ta);
        let p = (v[i].0.clone(), e);
        proof {
            lemma_named_elem_push(r@, p);
            lemma_named_elem_push(v@.take(i as int), v@[i as int]);
            assert(v@.take(i as int).push(v@[i as int]) =~= v@.take(i + 1));
            let nv = named_view(v@.take(i as int)).push((v@[i as int].0@, v@[i as int].1@));
            assert(nv.drop_last() =~= named_view(v@.take(i as int)));
        }
        r.push(p);
        i = i + 1;
    }
    assert(v@.take(v@.len() as int) =~= v@);
    r
}

/// `expr` with the type parameters `tp` replaced by `ta` in its casts.
fn substitute_expr(expr: &Expr, tp: &Vec<String>, ta: &Vec<Type>) -> (r: Expr)
    ensures
        r@ == subst_expr(expr@, strs_view(tp@), types_view(ta@)),
        tp@.len() == 0 ==> r@ == expr@,
    decreases expr,
{
    match expr {
        Expr::Cast { expr: inner, to } => Expr::Cast {
            expr: Box::new(substitute_expr(inner, tp, ta)),
            to: subst_params(to, tp, ta),
        },
        Expr::BinaryOp { left, op, right } => Expr::BinaryOp {
            left: Box::new(substitute_expr(left, tp, ta)),
            op: *op,
            right: Box::new(substitute_expr(right, tp, ta)),
        },
        Expr::UnaryOp { op, operand } => Expr::UnaryOp { op: *op, operand: Box::new(substitute_expr(operand, tp, ta)) },
        Expr::Call { func, args, named } => Expr::Call {
            func: Box::new(copy_expr(func)),
            args: substitute_exprs(args, tp, ta),
            named: copy_named(named),
        },
        Expr::Index { array, index } => Expr::Index {
            array: Box::new(substitute_expr(array, tp, ta)),
            index: Box::new(substitute_expr(index, tp, ta)),
        },
        Expr::StructLiteral { name, fields } => Expr::StructLiteral { name: name.clone(), fields: substitute_named(fields, tp, ta) },
        other => copy_expr(other),
    }
}

fn substitute_stmts(v: &Vec<Stmt>, tp: &Vec<String>, ta: &Vec<Type>) -> (r: Vec<Stmt>)
    ensures
        stmts_view(r@) == subst_stmts(stmts_view(v@), strs_view(tp@), types_view(ta@)),
        tp@.len() == 0 ==> stmts_view(r@) == stmts_view(v@),
    decreases v,
{
    let mut r: Vec<Stmt> = Vec::new();
    let mut i: usize = 0;
    while i < v.len()
        invariant
            i <= v@.len(),
            tp@.len() == 0 ==> stmts_view(r@) == stmts_view(v@.take(i as int)),
            stmts_view(r@) == subst_stmts(stmts_view(v@.take(i as int)), strs_view(tp@), types_view(ta@)),
        decreases v.len() - i,
    {
        let s = substitute_stmt(&v[i], tp, ta);
        proof {
            lemma_stmts_view_push(r@, s);
            lemma_stmts_view_push(v@.take(i as int), v@[i as int]);
            assert(v@.take(i as int).push(v@[i as int]) =~= v@.take(i + 1));
            let sv = stmts_view(v@.take(i as int)).push(v@[i as int]@);
            assert(sv.drop_last() =~= stmts_view(v@.take(i as int)));
        }
        r.push(s);
        i = i + 1;
    }
    assert(v@.take(v@.len() as int) =~= v@);
    r
}

fn substitute_block(block: &Block, tp: &Vec<String>, ta: &Vec<Type>) -> (r: Block)
    ensures
        r@ == subst_block(block@, strs_view(tp@), types_view(ta@)),
        tp@.len() == 0 ==> r@ == block@,
    decreases block,
{
    let statements = substitute_stmts(&block.statements, tp, ta);
    let tail_expr = match &block.tail_expr {
        Some(e) => Some(substitute_expr(e, tp, ta)),
        None => None,
    };
    Block { statements, tail_expr }
}

/// `stmt` with the type parameters `tp` replaced by `ta` in its type
/// annotations and casts.
fn substitute_stmt(stmt: &Stmt, tp: &Vec<String>, ta: &Vec<Type>) -> (r: Stmt)
    ensures
        r@ == subst_stmt(stmt@, strs_view(tp@), types_view(ta@)),
        tp@.len() == 0 ==> r@ == stmt@,
    decreases stmt,
{
    match stmt {
        Stmt::VarDecl { name, ty, value, sensitive } => Stmt::VarDecl {
            name: name.clone(),
            ty: match ty {
                Some(t) => Some(subst_params(t, tp, ta)),
                None => None,
            },
            value: substitute_expr(value, tp, ta),
            sensitive: *sensitive,
        },
        Stmt::Return(Some(e)) => Stmt::Return(Some(substitute_expr(e, tp, ta))),
        Stmt::ExprStmt(e) => Stmt::ExprStmt(substitute_expr(e, tp, ta)),
        Stmt::Print(e) => Stmt::Print(substitute_expr(e, tp, ta)),
        Stmt::Assign { name, value } => Stmt::Assign { name: name.clone(), value: substitute_expr(value, tp, ta) },
        Stmt::Check { condition, then_block, else_block } => Stmt::Check {
            condition: substitute_expr(condition, tp, ta),
            then_block: substitute_block(then_block, tp, ta),
            else_block: match else_block {
                Some(b) => Some(substitute_block(b, tp, ta)),
                None => None,
            },
        },
        Stmt::Loop { kind, body } => {
            let new_kind = match kind {
                LoopKind::Times(e) => LoopKind::Times(substitute_expr(e, tp, ta)),
                LoopKind::While(e) => LoopKind::While(substitute_expr(e, tp, ta)),
                LoopKind::FromTo { var, from, to } => LoopKind::FromTo {
                    var: var.clone(),
                    from: substitute_expr(from, tp, ta),
                    to: substitute_expr(to, tp, ta),
                },
                LoopKind::Infinite => LoopKind::Infinite,
                LoopKind::Range { var, range } => LoopKind::Range { var: var.clone(), range: copy_expr(range) },
                LoopKind::ForEach { var, iterable } => LoopKind::ForEach { var: var.clone(), iterable: copy_expr(iterable) },
            };
            Stmt::Loop { kind: new_kind, body: substitute_block(body, tp, ta) }
        },
        other => copy_stmt(other),
    }
}

// ── The pass ────────────────────────────────────────────────────────────

/// No statement among `out` is a generic declaration.
pub open spec fn none_generic(out: Seq<Stmt>) -> bool {
    forall|j: int| 0 <= j < out.len() ==> !is_generic_decl(#[trigger] out[j]@)
}

/// The generic task and struct declarations of a program; for a name
/// declared twice, the later declaration.
fn collect_defs(stmts: &Vec<Stmt>) -> (r: (Vec<TaskDef>, Vec<StructDef>))
    ensures
        !has_generic_decl(stmts_view(stmts@)) <==> r.0@.len() == 0 && r.1@.len() == 0,
        (task_defs_view(r.0@), struct_defs_view(r.1@)) == defs_of(stmts_view(stmts@)),
{
    let mut defs: Vec<TaskDef> = Vec::new();
    let mut sdefs: Vec<StructDef> = Vec::new();
    proof {
        lemma_stmts_view(stmts@);
    }
    let mut i: usize = 0;
    while i < stmts.len()
        invariant
            i <= stmts@.len(),
            stmts_view(stmts@).len() == stmts@.len(),
            forall|j: int| 0 <= j < stmts@.len() ==> #[trigger] stmts_view(stmts@)[j] == stmts@[j]@,
            !has_generic_decl(stmts_view(stmts@)) ==> defs@.len() == 0 && sdefs@.len() == 0,
            defs@.len() == 0 && sdefs@.len() == 0 ==> forall|j: int| 0 <= j < i ==> !is_generic_decl(#[trigger] stmts_view(stmts@)[j]),
            (task_defs_view(defs@), struct_defs_view(sdefs@)) == defs_of(stmts_view(stmts@).take(i as int)),
        decreases stmts.len() - i,
    {
        proof {
            assert(stmts_view(stmts@).take(i + 1).drop_last() =~= stmts_view(stmts@).take(i as int));
            assert(stmts_view(stmts@).take(i + 1).last() == stmts@[i as int]@);
        }
        let ghost tv0 = task_defs_view(defs@);
        let ghost sv0 = struct_defs_view(sdefs@);
        match &stmts[i] {
            Stmt::TaskDecl { name, type_params, params, return_type, body, is_inline, is_async, .. } => {
                if type_params.len() > 0 {
                    proof {
                        assert(is_generic_decl(stmts_view(stmts@)[i as int]));
                    }
                    let def = TaskDef {
                        name: name.clone(),
                        type_params: copy_strings(type_params),
                        params: copy_typed_names(params),
                        return_type: copy_type(return_type),
                        body: copy_block(body),
                        is_inline: *is_inline,
                        is_async: *is_async,
                    };
                    let ghost dv = task_def_view(def);
                    match find_task(&defs, name.as_str()) {
                        Some(k) => {
                            defs.set(k, def);
                            proof {
                                assert(task_defs_view(defs@) =~= tv0.update(k as int, dv));
                            }
                        },
                        None => {
                            defs.push(def);
                            proof {
                                assert(task_defs_view(defs@) =~= tv0.push(dv));
                            }
                        },
                    }
                }
            },
            Stmt::StructDecl { name, type_params, fields } => {
                if type_params.len() > 0 {
                    proof {
                        assert(is_generic_decl(stmts_view(stmts@)[i as int]));
                    }
                    let def = StructDef {
                        name: name.clone(),
                        type_params: copy_strings(type_params),
                        fields: copy_typed_names(fields),
                    };
                    let ghost dv = struct_def_view(def);
                    match find_struct(&sdefs, name.as_str()) {
                        Some(k) => {
                            sdefs.set(k, def);
                            proof {
                                assert(struct_defs_view(sdefs@) =~= sv0.update(k as int, dv));
                            }
                        },
                        None => {
                            sdefs.push(def);
                            proof {
                                assert(struct_defs_view(sdefs@) =~= sv0.push(dv));
                            }
                        },
                    }
                }
            },
            _ => {},
        }
        i = i + 1;
    }
    proof {
        assert(stmts_view(stmts@).take(stmts@.len() as int) =~= stmts_view(stmts@));
    }
    (defs, sdefs)
}

/// The non-generic statements, in order, with their uses renamed.
fn rewrite_kept(
    stmts: &Vec<Stmt>,
    defs: &Vec<TaskDef>,
    sdefs: &Vec<StructDef>,
    task_inst: &Vec<(String, Vec<Type>)>,
    struct_inst: &Vec<(String, Vec<Type>)>,
) -> (r: Vec<Stmt>)
    ensures
        none_generic(r@),
        stmts_view(r@) == kept_spec(stmts_view(stmts@), task_defs_view(defs@), struct_defs_view(sdefs@), insts_view(task_inst@), insts_view(struct_inst@)),
{
    let mut out: Vec<Stmt> = Vec::new();
    let mut i: usize = 0;
    while i < stmts.len()
        invariant
            i <= stmts@.len(),
            none_generic(out@),
            stmts_view(out@) == kept_spec(stmts_view(stmts@.take(i as int)), task_defs_view(defs@), struct_defs_view(sdefs@), insts_view(task_inst@), insts_view(struct_inst@)),
        decreases stmts.len() - i,
    {
        proof {
            lemma_stmts_view_push(stmts@.take(i as int), stmts@[i as int]);
            assert(stmts@.take(i as int).push(stmts@[i as int]) =~= stmts@.take(i + 1));
            assert(stmts_view(stmts@.take(i + 1)).drop_last() =~= stmts_view(stmts@.take(i as int)));
        }
        let skip = is_generic_decl_exec(&stmts[i]);
        if !skip {
            let s = rewrite_stmt(&stmts[i], defs, sdefs, task_inst, struct_inst);
            proof {
                lemma_stmts_view_push(out@, s);
            }
            out.push(s);
        }
        i = i + 1;
    }
    assert(stmts@.take(stmts@.len() as int) =~= stmts@);
    out
}

#[verifier::rlimit(100)]
#[verifier::spinoff_prover]
fn is_generic_decl_exec(s: &Stmt) -> (b: bool)
    ensures
        b == is_generic_decl(s@),
{
    match s {
        Stmt::TaskDecl { type_params, .. } => type_params.len() > 0,
        Stmt::StructDecl { type_params, .. } => type_params.len() > 0,
        _ => false,
    }
}

/// One concrete struct per recorded instantiation, grouped by struct.
fn emit_structs(sdefs: &Vec<StructDef>, struct_inst: &Vec<(String, Vec<Type>)>, out: &mut Vec<Stmt>)
    requires
        none_generic(old(out)@),
    ensures
        none_generic(final(out)@),
        stmts_view(final(out)@) == stmts_view(old(out)@) + emit_structs_spec(struct_defs_view(sdefs@), insts_view(struct_inst@)),
{
    let ghost sv = struct_defs_view(sdefs@);
    let ghost iv = insts_view(struct_inst@);
    let ghost start = stmts_view(out@);
    let mut d: usize = 0;
    while d < sdefs.len()
        invariant
            d <= sdefs@.len(),
            none_generic(out@),
            sv == struct_defs_view(sdefs@),
            iv == insts_view(struct_inst@),
            stmts_view(out@) == start + emit_structs_spec(sv.take(d as int), iv),
        decreases sdefs.len() - d,
    {
        let ghost mid = stmts_view(out@);
        let mut k: usize = 0;
        while k < struct_inst.len()
            invariant
                k <= struct_inst@.len(),
                d < sdefs@.len(),
                none_generic(out@),
                sv == struct_defs_view(sdefs@),
                iv == insts_view(struct_inst@),
                stmts_view(out@) == mid + struct_copies(sv[d as int], iv.take(k as int)),
            decreases struct_inst.len() - k,
        {
            proof {
                assert(iv.take(k + 1).drop_last() =~= iv.take(k as int));
                assert(iv[k as int] == (struct_inst@[k as int].0@, types_view(struct_inst@[k as int].1@)));
                assert(sv[d as int] == struct_def_view(sdefs@[d as int]));
            }
            if str_eq(struct_inst[k].0.as_str(), sdefs[d].name.as_str()) {
                let args = &struct_inst[k].1;
                let name = make_concrete_name(sdefs[d].name.as_str(), args);
                let fields = subst_typed_names(&sdefs[d].fields, &sdefs[d].type_params, args);
                let empty: Vec<String> = Vec::new();
                let st = Stmt::StructDecl { name, type_params: empty, fields };
                proof {
                    assert(strs_view(empty@) =~= Seq::<Seq<char>>::empty());
                    assert(!is_generic_decl(st@));
                    assert(st@ == struct_instance(sv[d as int], iv[k as int].1));
                    lemma_stmts_view_push(out@, st);
                }
                out.push(st);
            }
            k = k + 1;
        }
        proof {
            assert(iv.take(struct_inst@.len() as int) =~= iv);
            assert(sv.take(d + 1).drop_last() =~= sv.take(d as int));
        }
        d = d + 1;
    }
    proof {
        assert(sv.take(sdefs@.len() as int) =~= sv);
    }
}

/// One concrete task per recorded instantiation, grouped by task.
fn emit_tasks(defs: &Vec<TaskDef>, task_inst: &Vec<(String, Vec<Type>)>, out: &mut Vec<Stmt>)
    requires
        none_generic(old(out)@),
    ensures
        none_generic(final(out)@),
        stmts_view(final(out)@) == stmts_view(old(out)@) + emit_tasks_spec(task_defs_view(defs@), insts_view(task_inst@)),
{
    let ghost tv = task_defs_view(defs@);
    let ghost iv = insts_view(task_inst@);
    let ghost start = stmts_view(out@);
    let mut d: usize = 0;
    while d < defs.len()
        invariant
            d <= defs@.len(),
            none_generic(out@),
            tv == task_defs_view(defs@),
            iv == insts_view(task_inst@),
            stmts_view(out@) == start + emit_tasks_spec(tv.take(d as int), iv),
        decreases defs.len() - d,
    {
        let ghost mid = stmts_view(out@);
        let mut k: usize = 0;
        while k < task_inst.len()
            invariant
                k <= task_inst@.len(),
                d < defs@.len(),
                none_generic(out@),
                tv == task_defs_view(defs@),
                iv == insts_view(task_inst@),
                stmts_view(out@) == mid + task_copies(tv[d as int], iv.take(k as int)),
            decreases task_inst.len() - k,
        {
            proof {
                assert(iv.take(k + 1).drop_last() =~= iv.take(k as int));
                assert(iv[k as int] == (task_inst@[k as int].0@, types_view(task_inst@[k as int].1@)));
                assert(tv[d as int] == task_def_view(defs@[d as int]));
            }
            if str_eq(task_inst[k].0.as_str(), defs[d].name.as_str()) {
                let args = &task_inst[k].1;
                let def = &defs[d];
                let name = make_concrete_name(def.name.as_str(), args);
                let params = subst_typed_names(&def.params, &def.type_params, args);
                let return_type = subst_params(&def.return_type, &def.type_params, args);
                let body = substitute_block(&def.body, &def.type_params, args);
                let empty: Vec<String> = Vec::new();
                let no_constraints: Vec<(String, Vec<String>)> = Vec::new();
                let st = Stmt::TaskDecl {
                    name,
                    type_params: empty,
                    constraints: no_constraints,
                    params,
                    return_type,
                    body,
                    is_inline: def.is_inline,
                    is_async: def.is_async,
                };
                proof {
                    assert(strs_view(empty@) =~= Seq::<Seq<char>>::empty());
                    assert(crate::ast::constraints_view(no_constraints@) =~= Seq::<(Seq<char>, Seq<Seq<char>>)>::empty());
                    assert(!is_generic_decl(st@));
                    assert(st@ == task_instance(tv[d as int], iv[k as int].1));
                    lemma_stmts_view_push(out@, st);
                }
                out.push(st);
            }
            k = k + 1;
        }
        proof {
            assert(iv.take(task_inst@.len() as int) =~= iv);
            assert(tv.take(d + 1).drop_last() =~= tv.take(d as int));
        }
        d = d + 1;
    }
    proof {
        assert(tv.take(defs@.len() as int) =~= tv);
    }
}

/// The program with its generic tasks and structs monomorphized: the
/// non-generic statements, in order, with their calls and literals renamed;
/// then one concrete struct per recorded instantiation of a generic
/// struct; then one concrete task per recorded instantiation of a generic
/// task. A program without generic declarations comes back unchanged.
pub fn monomorphize(program: &Program) -> (r: Program)
    ensures
        r@.statements == monomorphize_spec(program@.statements),
        !has_generic_decl(program@.statements) ==> r@ == program@,
        forall|i: int| 0 <= i < r@.statements.len() ==> !is_generic_decl(#[trigger] r@.statements[i]),
{
    let stmts = &program.statements;
    let (defs, sdefs) = collect_defs(stmts);
    if defs.len() == 0 && sdefs.len() == 0 {
        return copy_program(program);
    }
    let ghost tv = task_defs_view(defs@);
    let ghost sv = struct_defs_view(sdefs@);
    let mut task_inst: Vec<(String, Vec<Type>)> = Vec::new();
    let mut struct_inst: Vec<(String, Vec<Type>)> = Vec::new();
    let ghost st0 = (insts_view(task_inst@), insts_view(struct_inst@));
    assert(st0 == (Seq::<InstView>::empty(), Seq::<InstView>::empty()));
    let mut i: usize = 0;
    while i < stmts.len()
        invariant
            i <= stmts@.len(),
            insts_wf(task_inst@),
            insts_wf(struct_inst@),
            tv == task_defs_view(defs@),
            sv == struct_defs_view(sdefs@),
            (insts_view(task_inst@), insts_view(struct_inst@)) == collect_stmts_spec(stmts_view(stmts@.take(i as int)), tv, sv, st0),
        decreases stmts.len() - i,
    {
        proof {
            lemma_stmts_view_push(stmts@.take(i as int), stmts@[i as int]);
            assert(stmts@.take(i as int).push(stmts@[i as int]) =~= stmts@.take(i + 1));
            assert(stmts_view(stmts@.take(i + 1)).drop_last() =~= stmts_view(stmts@.take(i as int)));
        }
        collect_from_stmt(&stmts[i], &defs, &sdefs, &mut task_inst, &mut struct_inst);
        i = i + 1;
    }
    assert(stmts@.take(stmts@.len() as int) =~= stmts@);
    let mut out = rewrite_kept(stmts, &defs, &sdefs, &task_inst, &struct_inst);
    emit_structs(&sdefs, &struct_inst, &mut out);
    emit_tasks(&defs, &task_inst, &mut out);
    proof {
        assert(program@.statements == stmts_view(stmts@));
        lemma_stmts_view(out@);
        assert forall|i: int| 0 <= i < stmts_view(out@).len() implies !is_generic_decl(#[trigger] stmts_view(out@)[i]) by {
            assert(!is_generic_decl(out@[i]@));
        }
    }
    Program { statements: out }
}


// ── Laws ────────────────────────────────────────────────────────────────

pub open spec fn all_plain(ss: Seq<SpecStmt>) -> bool {
    forall|i: int| 0 <= i < ss.len() ==> !is_generic_decl(#[trigger] ss[i])
}

proof fn lemma_plain_concat(a: Seq<SpecStmt>, b: Seq<SpecStmt>)
    requires
        all_plain(a),
        all_plain(b),
    ensures
        all_plain(a + b),
{
    assert forall|i: int| 0 <= i < (a + b).len() implies !is_generic_decl(#[trigger] (a + b)[i]) by {
        if i < a.len() {
            assert((a + b)[i] == a[i]);
        } else {
            assert((a + b)[i] == b[i - a.len()]);
        }
    }
}

proof fn lemma_plain_push(a: Seq<SpecStmt>, x: SpecStmt)
    requires
        all_plain(a),
        !is_generic_decl(x),
    ensures
        all_plain(a.push(x)),
{
    assert forall|i: int| 0 <= i < a.push(x).len() implies !is_generic_decl(#[trigger] a.push(x)[i]) by {
        if i < a.len() {
            assert(a.push(x)[i] == a[i]);
        }
    }
}

proof fn lemma_defs_none(ss: Seq<SpecStmt>)
    requires
        !has_generic_decl(ss),
    ensures
        defs_of(ss).0.len() == 0 && defs_of(ss).1.len() == 0,
    decreases ss.len(),
{
    if ss.len() > 0 {
        let d = ss.drop_last();
        assert(!has_generic_decl(d)) by {
            if has_generic_decl(d) {
                let i = choose|i: int| 0 <= i < d.len() && is_generic_decl(#[trigger] d[i]);
                assert(ss[i] == d[i]);
            }
        }
        lemma_defs_none(d);
        assert(!is_generic_decl(ss[ss.len() - 1]));
    }
}

proof fn lemma_first_task(t: Seq<TaskDefView>, name: Seq<char>, i: int)
    requires
        0 <= i < t.len(),
        t[i].0 == name,
    ensures
        exists|k: int| 0 <= k < t.len() && t[k].0 == name && forall|j: int| 0 <= j < k ==> t[j].0 != name,
    decreases i,
{
    if exists|j: int| 0 <= j < i && t[j].0 == name {
        let j = choose|j: int| 0 <= j < i && t[j].0 == name;
        lemma_first_task(t, name, j);
    } else {
        assert(0 <= i < t.len() && t[i].0 == name && forall|j: int| 0 <= j < i ==> t[j].0 != name);
    }
}

proof fn lemma_first_struct(t: Seq<StructDefView>, name: Seq<char>, i: int)
    requires
        0 <= i < t.len(),
        t[i].0 == name,
    ensures
        exists|k: int| 0 <= k < t.len() && t[k].0 == name && forall|j: int| 0 <= j < k ==> t[j].0 != name,
    decreases i,
{
    if exists|j: int| 0 <= j < i && t[j].0 == name {
        let j = choose|j: int| 0 <= j < i && t[j].0 == name;
        lemma_first_struct(t, name, j);
    } else {
        assert(0 <= i < t.len() && t[i].0 == name && forall|j: int| 0 <= j < i ==> t[j].0 != name);
    }
}

/// Each statement keeps or adds to the generic definitions found so far;
/// a generic declaration leaves at least one of its kind.
proof fn lemma_defs_step(ss: Seq<SpecStmt>)
    requires
        ss.len() > 0,
    ensures
        defs_of(ss).0.len() >= defs_of(ss.drop_last()).0.len(),
        defs_of(ss).1.len() >= defs_of(ss.drop_last()).1.len(),
        is_generic_decl(ss.last()) ==> defs_of(ss).0.len() > 0 || defs_of(ss).1.len() > 0,
{
    let (t, st) = defs_of(ss.drop_last());
    match ss.last() {
        SpecStmt::TaskDecl { name, .. } => {
            if exists|i: int| 0 <= i < t.len() && t[i].0 == name {
                let i = choose|i: int| 0 <= i < t.len() && t[i].0 == name;
                lemma_first_task(t, name, i);
            }
        },
        SpecStmt::StructDecl { name, .. } => {
            if exists|i: int| 0 <= i < st.len() && st[i].0 == name {
                let i = choose|i: int| 0 <= i < st.len() && st[i].0 == name;
                lemma_first_struct(st, name, i);
            }
        },
        _ => {},
    }
}

proof fn lemma_defs_some(ss: Seq<SpecStmt>)
    requires
        has_generic_decl(ss),
    ensures
        defs_of(ss).0.len() > 0 || defs_of(ss).1.len() > 0,
    decreases ss.len(),
{
    let d = ss.drop_last();
    lemma_defs_step(ss);
    if !is_generic_decl(ss.last()) {
        let i = choose|i: int| 0 <= i < ss.len() && is_generic_decl(#[trigger] ss[i]);
        assert(i != ss.len() - 1);
        assert(d[i] == ss[i]);
        lemma_defs_some(d);
    }
}

proof fn lemma_kept_plain(ss: Seq<SpecStmt>, t: Seq<TaskDefView>, s: Seq<StructDefView>, ti: Seq<InstView>, si: Seq<InstView>)
    ensures
        all_plain(kept_spec(ss, t, s, ti, si)),
    decreases ss.len(),
{
    if ss.len() > 0 {
        lemma_kept_plain(ss.drop_last(), t, s, ti, si);
        if !is_generic_decl(ss.last()) {
            lemma_plain_push(kept_spec(ss.drop_last(), t, s, ti, si), rewrite_stmt_spec(ss.last(), t, s, ti, si));
        }
    }
}

proof fn lemma_copies_plain(t: Seq<TaskDefView>, s: Seq<StructDefView>, ti: Seq<InstView>, si: Seq<InstView>)
    ensures
        all_plain(emit_tasks_spec(t, ti)),
        all_plain(emit_structs_spec(s, si)),
    decreases t.len() + s.len(),
{
    if t.len() > 0 {
        lemma_copies_plain(t.drop_last(), s, ti, si);
        lemma_task_copies_plain(t.last(), ti);
        lemma_plain_concat(emit_tasks_spec(t.drop_last(), ti), task_copies(t.last(), ti));
    }
    if s.len() > 0 {
        lemma_copies_plain(t, s.drop_last(), ti, si);
        lemma_struct_copies_plain(s.last(), si);
        lemma_plain_concat(emit_structs_spec(s.drop_last(), si), struct_copies(s.last(), si));
    }
}

proof fn lemma_task_copies_plain(d: TaskDefView, ti: Seq<InstView>)
    ensures
        all_plain(task_copies(d, ti)),
    decreases ti.len(),
{
    if ti.len() > 0 {
        lemma_task_copies_plain(d, ti.drop_last());
        if ti.last().0 == d.0 {
            lemma_plain_push(task_copies(d, ti.drop_last()), task_instance(d, ti.last().1));
        }
    }
}

proof fn lemma_struct_copies_plain(d: StructDefView, si: Seq<InstView>)
    ensures
        all_plain(struct_copies(d, si)),
    decreases si.len(),
{
    if si.len() > 0 {
        lemma_struct_copies_plain(d, si.drop_last());
        if si.last().0 == d.0 {
            lemma_plain_push(struct_copies(d, si.drop_last()), struct_instance(d, si.last().1));
        }
    }
}

/// Monomorphization leaves no generic task or struct declaration, and a
/// program that has none comes back unchanged.
pub proof fn law_monomorphize(ss: Seq<SpecStmt>)
    ensures
        forall|i: int| 0 <= i < monomorphize_spec(ss).len() ==> !is_generic_decl(#[trigger] monomorphize_spec(ss)[i]),
        !has_generic_decl(ss) ==> monomorphize_spec(ss) == ss,
{
    let (t, s) = defs_of(ss);
    if has_generic_decl(ss) {
        lemma_defs_some(ss);
        let insts = collect_stmts_spec(ss, t, s, (Seq::empty(), Seq::empty()));
        lemma_kept_plain(ss, t, s, insts.0, insts.1);
        lemma_copies_plain(t, s, insts.0, insts.1);
        lemma_plain_concat(kept_spec(ss, t, s, insts.0, insts.1), emit_structs_spec(s, insts.1));
        lemma_plain_concat(kept_spec(ss, t, s, insts.0, insts.1) + emit_structs_spec(s, insts.1), emit_tasks_spec(t, insts.0));
        assert(all_plain(monomorphize_spec(ss)));
    } else {
        lemma_defs_none(ss);
    }
}

/// No instantiation is recorded twice.
pub open spec fn no_repeats(iv: Seq<InstView>) -> bool {
    forall|i: int, j: int| 0 <= i < j < iv.len() ==> iv[i] != iv[j]
}

pub open spec fn insts_no_repeats(st: InstsView) -> bool {
    no_repeats(st.0) && no_repeats(st.1)
}

proof fn lemma_add_inst_no_repeats(iv: Seq<InstView>, name: Seq<char>, args: Seq<SpecType>)
    requires
        no_repeats(iv),
    ensures
        no_repeats(add_inst_spec(iv, name, args)),
{
    if !(exists|i: int| 0 <= i < iv.len() && iv[i] == (name, args)) {
        let r = iv.push((name, args));
        assert forall|i: int, j: int| 0 <= i < j < r.len() implies r[i] != r[j] by {
            if j == iv.len() {
                assert(r[i] == iv[i]);
            } else {
                assert(r[i] == iv[i] && r[j] == iv[j]);
            }
        }
    }
}

proof fn lemma_steps_no_repeats(e: SpecExpr, t: Seq<TaskDefView>, s: Seq<StructDefView>, st: InstsView)
    requires
        insts_no_repeats(st),
    ensures
        match e {
            SpecExpr::Call { func, args, .. } => no_repeats(call_inst_step(*func, args, t, st.0)),
            SpecExpr::StructLiteral { name, fields } => no_repeats(struct_inst_step(name, fields, s, st.1)),
            _ => true,
        },
{
    match e {
        SpecExpr::Call { func, args, .. } => {
            match *func {
                SpecExpr::Identifier(name) => match find_task_def(t, name) {
                    Some(k) => lemma_add_inst_no_repeats(st.0, name, call_args_spec(t[k].1, t[k].2, args)),
                    None => {},
                },
                _ => {},
            }
        },
        SpecExpr::StructLiteral { name, fields } => {
            match find_struct_def(s, name) {
                Some(k) => lemma_add_inst_no_repeats(st.1, name, struct_args_spec(s[k].1, s[k].2, fields)),
                None => {},
            }
        },
        _ => {},
    }
}

proof fn lemma_collect_expr_no_repeats(e: SpecExpr, t: Seq<TaskDefView>, s: Seq<StructDefView>, st: InstsView)
    requires
        insts_no_repeats(st),
    ensures
        insts_no_repeats(collect_expr_spec(e, t, s, st)),
    decreases e,
{
    lemma_steps_no_repeats(e, t, s, st);
    match e {
        SpecExpr::Call { func, args, .. } => lemma_collect_exprs_no_repeats(args, t, s, (call_inst_step(*func, args, t, st.0), st.1)),
        SpecExpr::StructLiteral { name, fields } => lemma_collect_named_no_repeats(fields, t, s, (st.0, struct_inst_step(name, fields, s, st.1))),
        SpecExpr::BinaryOp { left, right, .. } => {
            lemma_collect_expr_no_repeats(*left, t, s, st);
            lemma_collect_expr_no_repeats(*right, t, s, collect_expr_spec(*left, t, s, st));
        },
        SpecExpr::UnaryOp { operand, .. } => lemma_collect_expr_no_repeats(*operand, t, s, st),
        _ => {},
    }
}

proof fn lemma_collect_exprs_no_repeats(es: Seq<SpecExpr>, t: Seq<TaskDefView>, s: Seq<StructDefView>, st: InstsView)
    requires
        insts_no_repeats(st),
    ensures
        insts_no_repeats(collect_exprs_spec(es, t, s, st)),
    decreases es,
{
    if es.len() > 0 {
        lemma_collect_exprs_no_repeats(es.drop_last(), t, s, st);
        lemma_collect_expr_no_repeats(es.last(), t, s, collect_exprs_spec(es.drop_last(), t, s, st));
    }
}

proof fn lemma_collect_named_no_repeats(ns: Seq<(Seq<char>, SpecExpr)>, t: Seq<TaskDefView>, s: Seq<StructDefView>, st: InstsView)
    requires
        insts_no_repeats(st),
    ensures
        insts_no_repeats(collect_named_spec(ns, t, s, st)),
    decreases ns,
{
    if ns.len() > 0 {
        lemma_collect_named_no_repeats(ns.drop_last(), t, s, st);
        lemma_collect_expr_no_repeats(ns.last().1, t, s, collect_named_spec(ns.drop_last(), t, s, st));
    }
}

proof fn lemma_collect_stmt_no_repeats(x: SpecStmt, t: Seq<TaskDefView>, s: Seq<StructDefView>, st: InstsView)
    requires
        insts_no_repeats(st),
    ensures
        insts_no_repeats(collect_stmt_spec(x, t, s, st)),
    decreases x,
{
    match x {
        SpecStmt::VarDecl { value, .. } => lemma_collect_expr_no_repeats(value, t, s, st),
        SpecStmt::Assign { value, .. } => lemma_collect_expr_no_repeats(value, t, s, st),
        SpecStmt::TaskDecl { type_params, body, .. } => if type_params.len() == 0 {
            lemma_collect_block_no_repeats(body, t, s, st);
        },
        SpecStmt::Check { condition, then_block, else_block } => {
            lemma_collect_expr_no_repeats(condition, t, s, st);
            let c = collect_expr_spec(condition, t, s, st);
            lemma_collect_block_no_repeats(then_block, t, s, c);
            if else_block is Some {
                lemma_collect_block_no_repeats(else_block->0, t, s, collect_block_spec(then_block, t, s, c));
            }
        },
        SpecStmt::Loop { body, .. } => lemma_collect_block_no_repeats(body, t, s, st),
        SpecStmt::ExprStmt(e) => lemma_collect_expr_no_repeats(e, t, s, st),
        SpecStmt::Print(e) => lemma_collect_expr_no_repeats(e, t, s, st),
        SpecStmt::Return(Some(e)) => lemma_collect_expr_no_repeats(e, t, s, st),
        SpecStmt::PrintFmt { args, .. } => lemma_collect_exprs_no_repeats(args, t, s, st),
        _ => {},
    }
}

proof fn lemma_collect_stmts_no_repeats(ss: Seq<SpecStmt>, t: Seq<TaskDefView>, s: Seq<StructDefView>, st: InstsView)
    requires
        insts_no_repeats(st),
    ensures
        insts_no_repeats(collect_stmts_spec(ss, t, s, st)),
    decreases ss,
{
    if ss.len() > 0 {
        lemma_collect_stmts_no_repeats(ss.drop_last(), t, s, st);
        lemma_collect_stmt_no_repeats(ss.last(), t, s, collect_stmts_spec(ss.drop_last(), t, s, st));
    }
}

proof fn lemma_collect_block_no_repeats(b: SpecBlock, t: Seq<TaskDefView>, s: Seq<StructDefView>, st: InstsView)
    requires
        insts_no_repeats(st),
    ensures
        insts_no_repeats(collect_block_spec(b, t, s, st)),
    decreases b,
{
    lemma_collect_stmts_no_repeats(b.statements, t, s, st);
    if b.tail_expr is Some {
        lemma_collect_expr_no_repeats(b.tail_expr->0, t, s, collect_stmts_spec(b.statements, t, s, st));
    }
}

/// Monomorphization records each task and struct instantiation once: the
/// instantiations it emits a concrete copy for hold no repeats, so no
/// instantiation gets two copies.
pub proof fn law_instantiations_recorded_once(ss: Seq<SpecStmt>)
    ensures
        insts_no_repeats(collect_stmts_spec(ss, defs_of(ss).0, defs_of(ss).1, (Seq::empty(), Seq::empty()))),
{
    lemma_collect_stmts_no_repeats(ss, defs_of(ss).0, defs_of(ss).1, (Seq::empty(), Seq::empty()));
}

proof fn lemma_param_arg_index(params: Seq<(Seq<char>, SpecType)>, tp: Seq<char>, nargs: int, i: int)
    requires
        0 <= i < params.len(),
        i < nargs,
        params[i].1 == SpecType::Generic(tp),
        forall|j: int| 0 <= j < i ==> params[j].1 != SpecType::Generic(tp),
    ensures
        param_arg_index(params, tp, nargs) == Some(i),
{
    let k = choose|k: int| 0 <= k < params.len() && params[k].1 == SpecType::Generic(tp) && k < nargs
        && forall|j: int| 0 <= j < k ==> !(params[j].1 == SpecType::Generic(tp) && j < nargs);
    assert(0 <= i < params.len() && params[i].1 == SpecType::Generic(tp) && i < nargs
        && forall|j: int| 0 <= j < i ==> !(params[j].1 == SpecType::Generic(tp) && j < nargs));
    if k < i {
        assert(params[k].1 != SpecType::Generic(tp));
    }
    if i < k {
        assert(!(params[i].1 == SpecType::Generic(tp) && i < nargs));
    }
}

/// A literal argument passed for the first parameter declared with the
/// type parameter `tps[k]` instantiates that type parameter with the
/// literal's type: a float gives `Float`, an integer `Int`, a boolean
/// `Bool`, a string `String`, and `null` gives `Ptr`.
pub proof fn law_literal_argument_instantiates(tps: Seq<Seq<char>>, params: Seq<(Seq<char>, SpecType)>, args: Seq<SpecExpr>, k: int, i: int)
    requires
        0 <= k < tps.len(),
        0 <= i < params.len(),
        i < args.len(),
        params[i].1 == SpecType::Generic(tps[k]),
        forall|j: int| 0 <= j < i ==> params[j].1 != SpecType::Generic(tps[k]),
    ensures
        args[i] is Float ==> call_args_spec(tps, params, args)[k] == SpecType::Float,
        args[i] is Integer ==> call_args_spec(tps, params, args)[k] == SpecType::Int,
        args[i] is Boolean ==> call_args_spec(tps, params, args)[k] == SpecType::Bool,
        args[i] is StringLiteral ==> call_args_spec(tps, params, args)[k] == SpecType::String,
        args[i] is Null ==> call_args_spec(tps, params, args)[k] == SpecType::Ptr,
{
    lemma_param_arg_index(params, tps[k], args.len() as int, i);
}

/// A generic task with one type parameter `T`, called with a float for
/// its first `T` parameter, gets the concrete copy `<name>_float`, in
/// which that parameter has type `Float`.
pub proof fn law_float_argument_copy(d: TaskDefView, args: Seq<SpecExpr>, i: int)
    requires
        d.1.len() == 1,
        0 <= i < d.2.len(),
        i < args.len(),
        d.2[i].1 == SpecType::Generic(d.1[0]),
        forall|j: int| 0 <= j < i ==> d.2[j].1 != SpecType::Generic(d.1[0]),
        args[i] is Float,
    ensures
        concrete_name(d.0, call_args_spec(d.1, d.2, args)) == d.0 + "_"@ + "float"@,
        match task_instance(d, call_args_spec(d.1, d.2, args)) {
            SpecStmt::TaskDecl { name, params, .. } => name == d.0 + "_"@ + "float"@ && params[i].1 == SpecType::Float,
            _ => false,
        },
{
    law_literal_argument_instantiates(d.1, d.2, args, 0, i);
    let ta = call_args_spec(d.1, d.2, args);
    assert(ta =~= seq![SpecType::Float]);
    let ps = subst_fields(d.2, d.1, ta);
    assert(ps[i] == (d.2[i].0, subst_seq(d.2[i].1, d.1, ta)));
    assert(spec_substitute(SpecType::Generic(d.1[0]), d.1[0], SpecType::Float) == SpecType::Float);
    assert(subst_seq(SpecType::Float, d.1.drop_first(), ta.drop_first()) == SpecType::Float);
}

} // verus!

