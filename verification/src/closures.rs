//! Closure capture analysis: which variables of the enclosing scope a
//! closure reads, the environment struct that carries them, and the body
//! rewritten to read them through that environment.
use vstd::prelude::*;
use crate::ast::{
    Type, Expr, Stmt, Block, SpecType, SpecExpr, SpecStmt, exprs_view, strs_view, type_view,
    lemma_exprs_view_push, copy_type, copy_expr,
};
use crate::text::{str_eq, concat2, u64_to_decimal, decimal};

verus! {

/// What code generation needs to know of one closure.
pub struct ClosureInfo {
    /// Name of the generated closure function.
    pub fn_name: String,
    /// Name of the generated environment struct.
    pub env_struct_name: String,
    /// Captured variable names and their types.
    pub captures: Vec<(String, Type)>,
}

/// `x` occurs in `e` outside the names bound in `bound` and by the
/// closures within `e`.
pub open spec fn is_free_in(e: SpecExpr, bound: Seq<Seq<char>>, x: Seq<char>) -> bool
    decreases e,
{
    match e {
        SpecExpr::Identifier(n) => n == x && !bound.contains(x),
        SpecExpr::BinaryOp { left, right, .. } => is_free_in(*left, bound, x) || is_free_in(*right, bound, x),
        SpecExpr::UnaryOp { operand, .. } => is_free_in(*operand, bound, x),
        SpecExpr::Call { func, args, .. } => is_free_in(*func, bound, x) || is_free_in_any(args, bound, x),
        SpecExpr::Closure { params, body } => is_free_in(*body, bound + params.map_values(|p: (Seq<char>, Option<SpecType>)| p.0), x),
        SpecExpr::Index { array, index } => is_free_in(*array, bound, x) || is_free_in(*index, bound, x),
        SpecExpr::FieldAccess { object, .. } => is_free_in(*object, bound, x),
        _ => false,
    }
}

pub open spec fn is_free_in_any(es: Seq<SpecExpr>, bound: Seq<Seq<char>>, x: Seq<char>) -> bool
    decreases es,
{
    if es.len() == 0 {
        false
    } else {
        is_free_in_any(es.drop_last(), bound, x) || is_free_in(es.last(), bound, x)
    }
}

pub open spec fn names_of(v: Seq<String>) -> Seq<Seq<char>> {
    v.map_values(|s: String| s@)
}

/// No name occurs twice.
pub open spec fn distinct_names(v: Seq<String>) -> bool {
    forall|i: int, j: int| 0 <= i < j < v.len() ==> #[trigger] v[i]@ != #[trigger] v[j]@
}

/// `e` with each read of a captured name `x` replaced by `*env.x`.
pub open spec fn rewrite_captures(e: SpecExpr, caps: Seq<Seq<char>>, env: Seq<char>) -> SpecExpr
    decreases e,
{
    match e {
        SpecExpr::Identifier(n) => if caps.contains(n) {
            SpecExpr::Deref(Box::new(SpecExpr::FieldAccess { object: Box::new(SpecExpr::Identifier(env)), field: n }))
        } else {
            e
        },
        SpecExpr::BinaryOp { left, op, right } => SpecExpr::BinaryOp {
            left: Box::new(rewrite_captures(*left, caps, env)),
            op,
            right: Box::new(rewrite_captures(*right, caps, env)),
        },
        SpecExpr::UnaryOp { op, operand } => SpecExpr::UnaryOp { op, operand: Box::new(rewrite_captures(*operand, caps, env)) },
        SpecExpr::Call { func, args, named } => SpecExpr::Call {
            func: Box::new(rewrite_captures(*func, caps, env)),
            args: rewrite_captures_all(args, caps, env),
            named,
        },
        _ => e,
    }
}

pub open spec fn rewrite_captures_all(es: Seq<SpecExpr>, caps: Seq<Seq<char>>, env: Seq<char>) -> Seq<SpecExpr>
    decreases es,
{
    if es.len() == 0 {
        Seq::empty()
    } else {
        rewrite_captures_all(es.drop_last(), caps, env).push(rewrite_captures(es.last(), caps, env))
    }
}

/// A capture is a variable free in the body, with the type the enclosing
/// scope gives it.
pub open spec fn capture_ok(scope: Seq<(String, Type)>, body: SpecExpr, params: Seq<Seq<char>>, c: (String, Type)) -> bool {
    &&& is_free_in(body, params, c.0@)
    &&& exists|j: int| 0 <= j < scope.len() && scope[j].0@ == c.0@ && type_view(scope[j].1) == type_view(c.1)
}

/// The enclosing scope declares `n`.
pub open spec fn declared_in(scope: Seq<(String, Type)>, n: Seq<char>) -> bool {
    exists|j: int| 0 <= j < scope.len() && scope[j].0@ == n
}

/// `n` is among the captures.
pub open spec fn captured_in(caps: Seq<(String, Type)>, n: Seq<char>) -> bool {
    exists|k: int| 0 <= k < caps.len() && caps[k].0@ == n
}

proof fn lemma_contains_push(s: Seq<Seq<char>>, a: Seq<char>)
    ensures
        forall|x: Seq<char>| #[trigger] s.push(a).contains(x) <==> (s.contains(x) || x == a),
{
    assert forall|x: Seq<char>| #[trigger] s.push(a).contains(x) <==> (s.contains(x) || x == a) by {
        if s.contains(x) {
            let k = choose|k: int| 0 <= k < s.len() && s[k] == x;
            assert(s.push(a)[k] == x);
        }
        if x == a {
            assert(s.push(a)[s.len() as int] == a);
        }
        if s.push(a).contains(x) {
            let k = choose|k: int| 0 <= k < s.push(a).len() && s.push(a)[k] == x;
            if k < s.len() {
                assert(s[k] == x);
            }
        }
    }
}

proof fn lemma_captured_push(c: Seq<(String, Type)>, e: (String, Type), n: Seq<char>)
    requires
        captured_in(c, n),
    ensures
        captured_in(c.push(e), n),
{
    let k = choose|k: int| 0 <= k < c.len() && c[k].0@ == n;
    assert(c.push(e)[k] == c[k]);
}

fn contains_name(v: &Vec<String>, n: &str) -> (r: bool)
    ensures
        r == names_of(v@).contains(n@),
{
    let mut i: usize = 0;
    while i < v.len()
        invariant
            i <= v@.len(),
            forall|j: int| 0 <= j < i ==> v@[j]@ != n@,
        decreases v.len() - i,
    {
        if str_eq(v[i].as_str(), n) {
            assert(names_of(v@)[i as int] == n@);
            return true;
        }
        i = i + 1;
    }
    assert forall|j: int| 0 <= j < names_of(v@).len() implies names_of(v@)[j] != n@ by {
        assert(names_of(v@)[j] == v@[j]@);
    }
    false
}

proof fn lemma_names_push(v: Seq<String>, s: String)
    ensures
        names_of(v.push(s)) == names_of(v).push(s@),
{
    assert(names_of(v.push(s)) =~= names_of(v).push(s@));
}

/// Adds the names free in `expr` (outside `bound`) to `free`, each once.
fn collect_free_vars_expr(expr: &Expr, bound: &Vec<String>, free: &mut Vec<String>)
    ensures
        forall|x: Seq<char>| names_of(final(free)@).contains(x)
            <==> (names_of(old(free)@).contains(x) || is_free_in(expr@, names_of(bound@), x)),
        forall|i: int| 0 <= i < old(free)@.len() ==> final(free)@[i] == old(free)@[i],
        final(free)@.len() >= old(free)@.len(),
        distinct_names(old(free)@) ==> distinct_names(final(free)@),
    decreases expr,
{
    match expr {
        Expr::Identifier(name) => {
            if !contains_name(bound, name.as_str()) && !contains_name(free, name.as_str()) {
                proof {
                    lemma_names_push(free@, *name);
                    lemma_contains_push(names_of(free@), name@);
                    assert forall|k: int| 0 <= k < free@.len() implies free@[k]@ != name@ by {
                        assert(names_of(free@)[k] == free@[k]@);
                    }
                }
                let ghost before = free@;
                free.push(name.clone());
                proof {
                    assert(free@[before.len() as int]@ == name@);
                }
            }
        },
        Expr::BinaryOp { left, right, .. } => {
            collect_free_vars_expr(left, bound, free);
            collect_free_vars_expr(right, bound, free);
        },
        Expr::UnaryOp { operand, .. } => collect_free_vars_expr(operand, bound, free),
        Expr::Call { func, args, .. } => {
            collect_free_vars_expr(func, bound, free);
            collect_free_vars_all(args, bound, free);
        },
        Expr::Closure { params, body } => {
            let mut inner: Vec<String> = Vec::new();
            let mut i: usize = 0;
            while i < bound.len()
                invariant
                    i <= bound@.len(),
                    names_of(inner@) == names_of(bound@.take(i as int)),
                decreases bound.len() - i,
            {
                proof {
                    lemma_names_push(inner@, bound@[i as int]);
                    assert(bound@.take(i + 1) =~= bound@.take(i as int).push(bound@[i as int]));
                    lemma_names_push(bound@.take(i as int), bound@[i as int]);
                }
                inner.push(bound[i].clone());
                i = i + 1;
            }
            proof {
                assert(bound@.take(bound@.len() as int) =~= bound@);
            }
            let ghost pnames = params@.map_values(|p: (String, Option<Type>)| p.0@);
            let mut k: usize = 0;
            while k < params.len()
                invariant
                    k <= params@.len(),
                    pnames == params@.map_values(|p: (String, Option<Type>)| p.0@),
                    names_of(inner@) == names_of(bound@) + pnames.take(k as int),
                decreases params.len() - k,
            {
                proof {
                    lemma_names_push(inner@, params@[k as int].0);
                    assert(pnames.take(k + 1) =~= pnames.take(k as int).push(params@[k as int].0@));
                    assert(names_of(bound@) + pnames.take(k + 1) =~= (names_of(bound@) + pnames.take(k as int)).push(params@[k as int].0@));
                }
                inner.push(params[k].0.clone());
                k = k + 1;
            }
            proof {
                assert(pnames.take(params@.len() as int) =~= pnames);
                let sp = crate::ast::closure_params_view(params@);
                assert(sp.map_values(|p: (Seq<char>, Option<SpecType>)| p.0) =~= pnames);
            }
            collect_free_vars_expr(body, &inner, free);
        },
        Expr::Index { array, index } => {
            collect_free_vars_expr(array, bound, free);
            collect_free_vars_expr(index, bound, free);
        },
        Expr::FieldAccess { object, .. } => collect_free_vars_expr(object, bound, free),
        _ => {},
    }
}

fn collect_free_vars_all(v: &Vec<Expr>, bound: &Vec<String>, free: &mut Vec<String>)
    ensures
        forall|x: Seq<char>| names_of(final(free)@).contains(x)
            <==> (names_of(old(free)@).contains(x) || is_free_in_any(exprs_view(v@), names_of(bound@), x)),
        forall|i: int| 0 <= i < old(free)@.len() ==> final(free)@[i] == old(free)@[i],
        final(free)@.len() >= old(free)@.len(),
        distinct_names(old(free)@) ==> distinct_names(final(free)@),
    decreases v,
{
    let mut i: usize = 0;
    while i < v.len()
        invariant
            i <= v@.len(),
            forall|x: Seq<char>| names_of(free@).contains(x)
                <==> (names_of(old(free)@).contains(x) || is_free_in_any(exprs_view(v@.take(i as int)), names_of(bound@), x)),
            forall|j: int| 0 <= j < old(free)@.len() ==> free@[j] == old(free)@[j],
            free@.len() >= old(free)@.len(),
            distinct_names(old(free)@) ==> distinct_names(free@),
        decreases v.len() - i,
    {
        proof {
            lemma_exprs_view_push(v@.take(i as int), v@[i as int]);
            assert(v@.take(i as int).push(v@[i as int]) =~= v@.take(i + 1));
            assert(exprs_view(v@.take(i + 1)).drop_last() =~= exprs_view(v@.take(i as int)));
        }
        collect_free_vars_expr(&v[i], bound, free);
        i = i + 1;
    }
    assert(v@.take(v@.len() as int) =~= v@);
}

/// The type `name` has in the enclosing scope (its first entry).
fn lookup_type(scope: &Vec<(String, Type)>, name: &str) -> (r: Option<Type>)
    ensures
        match r {
            Some(t) => exists|i: int| 0 <= i < scope@.len() && #[trigger] scope@[i].0@ == name@ && type_view(scope@[i].1) == t@,
            None => forall|i: int| 0 <= i < scope@.len() ==> #[trigger] scope@[i].0@ != name@,
        },
{
    let mut i: usize = 0;
    while i < scope.len()
        invariant
            i <= scope@.len(),
            forall|j: int| 0 <= j < i ==> #[trigger] scope@[j].0@ != name@,
        decreases scope.len() - i,
    {
        if str_eq(scope[i].0.as_str(), name) {
            return Some(copy_type(&scope[i].1));
        }
        i = i + 1;
    }
    None
}

/// The captures of a closure with parameters `params` and body `body`,
/// given the variables of the enclosing scope, and the names of its
/// function (`__closure_<id>`) and environment struct (`__env_<id>`).
/// A captured variable is one free in the body that the enclosing scope
/// declares; each is captured once, with its type there.
pub fn analyze_closure(params: &Vec<String>, body: &Expr, enclosing_scope: &Vec<(String, Type)>, id: u64) -> (r: ClosureInfo)
    ensures
        r.fn_name@ == "__closure_"@ + decimal(id as nat),
        r.env_struct_name@ == "__env_"@ + decimal(id as nat),
        forall|i: int| 0 <= i < r.captures@.len() ==> capture_ok(enclosing_scope@, body@, names_of(params@), #[trigger] r.captures@[i]),
        forall|j: int| 0 <= j < enclosing_scope@.len() && is_free_in(body@, names_of(params@), #[trigger] enclosing_scope@[j].0@)
            ==> captured_in(r.captures@, enclosing_scope@[j].0@),
        forall|i: int, j: int| 0 <= i < j < r.captures@.len() ==> #[trigger] r.captures@[i].0@ != #[trigger] r.captures@[j].0@,
{
    let mut free: Vec<String> = Vec::new();
    collect_free_vars_expr(body, params, &mut free);
    let mut captures: Vec<(String, Type)> = Vec::new();
    let mut i: usize = 0;
    let ghost mut idx: Seq<int> = Seq::empty();
    while i < free.len()
        invariant
            i <= free@.len(),
            forall|x: Seq<char>| names_of(free@).contains(x) <==> is_free_in(body@, names_of(params@), x),
            forall|k: int| 0 <= k < captures@.len() ==> capture_ok(enclosing_scope@, body@, names_of(params@), #[trigger] captures@[k]),
            forall|m: int| 0 <= m < i ==> declared_in(enclosing_scope@, #[trigger] free@[m]@) ==> captured_in(captures@, free@[m]@),
            distinct_names(free@),
            idx.len() == captures@.len(),
            forall|k: int| 0 <= k < idx.len() ==> 0 <= #[trigger] idx[k] < i && captures@[k].0@ == free@[idx[k]]@,
            forall|k1: int, k2: int| 0 <= k1 < k2 < idx.len() ==> #[trigger] idx[k1] < #[trigger] idx[k2],
        decreases free.len() - i,
    {
        proof {
            assert(names_of(free@)[i as int] == free@[i as int]@);
            assert(names_of(free@).contains(free@[i as int]@));
        }
        let ghost before = captures@;
        match lookup_type(enclosing_scope, free[i].as_str()) {
            Some(t) => {
                let e = (free[i].clone(), t);
                proof {
                    assert(is_free_in(body@, names_of(params@), free@[i as int]@));
                    assert(capture_ok(enclosing_scope@, body@, names_of(params@), e));
                }
                captures.push(e);
                proof {
                    idx = idx.push(i as int);
                    assert(captures@[captures@.len() - 1].0@ == free@[i as int]@);
                    assert(captured_in(captures@, free@[i as int]@));
                    assert forall|m: int| 0 <= m < i && declared_in(enclosing_scope@, #[trigger] free@[m]@) implies captured_in(captures@, free@[m]@) by {
                        lemma_captured_push(before, e, free@[m]@);
                    }
                }
            },
            None => {
                proof {
                    assert(!declared_in(enclosing_scope@, free@[i as int]@));
                }
            },
        }
        i = i + 1;
    }
    proof {
        assert forall|a: int, b: int| 0 <= a < b < captures@.len() implies #[trigger] captures@[a].0@ != #[trigger] captures@[b].0@ by {
            assert(idx[a] < idx[b]);
            assert(free@[idx[a]]@ != free@[idx[b]]@);
        }
        assert forall|j: int| 0 <= j < enclosing_scope@.len() && is_free_in(body@, names_of(params@), #[trigger] enclosing_scope@[j].0@)
            implies captured_in(captures@, enclosing_scope@[j].0@) by {
            let x = enclosing_scope@[j].0@;
            assert(names_of(free@).contains(x));
            let m = choose|m: int| 0 <= m < names_of(free@).len() && names_of(free@)[m] == x;
            assert(free@[m]@ == x);
            assert(declared_in(enclosing_scope@, free@[m]@));
        }
    }
    let digits = u64_to_decimal(id);
    ClosureInfo {
        fn_name: concat2("__closure_", digits.as_str()),
        env_struct_name: concat2("__env_", digits.as_str()),
        captures,
    }
}

/// The closure body with its captured variables read through `env_param`.
pub fn rewrite_closure_body(expr: &Expr, captures: &Vec<(String, Type)>, env_param: &str) -> (r: Expr)
    ensures
        r@ == rewrite_captures(expr@, captures@.map_values(|c: (String, Type)| c.0@), env_param@),
{
    let mut names: Vec<String> = Vec::new();
    let mut i: usize = 0;
    while i < captures.len()
        invariant
            i <= captures@.len(),
            names_of(names@) == captures@.take(i as int).map_values(|c: (String, Type)| c.0@),
        decreases captures.len() - i,
    {
        proof {
            lemma_names_push(names@, captures@[i as int].0);
            assert(captures@.take(i + 1).map_values(|c: (String, Type)| c.0@)
                =~= captures@.take(i as int).map_values(|c: (String, Type)| c.0@).push(captures@[i as int].0@));
        }
        names.push(captures[i].0.clone());
        i = i + 1;
    }
    assert(captures@.take(captures@.len() as int) =~= captures@);
    rewrite_expr_captures(expr, &names, env_param)
}

fn rewrite_expr_captures(expr: &Expr, captures: &Vec<String>, env_param: &str) -> (r: Expr)
    ensures
        r@ == rewrite_captures(expr@, names_of(captures@), env_param@),
    decreases expr,
{
    proof {
        reveal_with_fuel(crate::ast::expr_view, 3);
    }
    match expr {
        Expr::Identifier(name) => {
            if contains_name(captures, name.as_str()) {
                Expr::Deref(Box::new(Expr::FieldAccess {
                    object: Box::new(Expr::Identifier(String::from_str(env_param))),
                    field: name.clone(),
                }))
            } else {
                Expr::Identifier(name.clone())
            }
        },
        Expr::BinaryOp { left, op, right } => Expr::BinaryOp {
            left: Box::new(rewrite_expr_captures(left, captures, env_param)),
            op: *op,
            right: Box::new(rewrite_expr_captures(right, captures, env_param)),
        },
        Expr::UnaryOp { op, operand } => Expr::UnaryOp {
            op: *op,
            operand: Box::new(rewrite_expr_captures(operand, captures, env_param)),
        },
        Expr::Call { func, args, named } => Expr::Call {
            func: Box::new(rewrite_expr_captures(func, captures, env_param)),
            args: rewrite_all_captures(args, captures, env_param),
            named: crate::ast::copy_named(named),
        },
        other => copy_expr(other),
    }
}

fn rewrite_all_captures(v: &Vec<Expr>, captures: &Vec<String>, env_param: &str) -> (r: Vec<Expr>)
    ensures
        exprs_view(r@) == rewrite_captures_all(exprs_view(v@), names_of(captures@), env_param@),
    decreases v,
{
    let mut r: Vec<Expr> = Vec::new();
    let mut i: usize = 0;
    while i < v.len()
        invariant
            i <= v@.len(),
            exprs_view(r@) == rewrite_captures_all(exprs_view(v@.take(i as int)), names_of(captures@), env_param@),
        decreases v.len() - i,
    {
        let e = rewrite_expr_captures(&v[i], captures, env_param);
        proof {
            lemma_exprs_view_push(r@, e);
            lemma_exprs_view_push(v@.take(i as int), v@[i as int]);
            assert(v@.take(i as int).push(v@[i as int]) =~= v@.take(i + 1));
            assert(exprs_view(v@.take(i + 1)).drop_last() =~= exprs_view(v@.take(i as int)));
        }
        r.push(e);
        i = i + 1;
    }
    assert(v@.take(v@.len() as int) =~= v@);
    r
}

/// The declarations that stand for a capturing closure: an environment
/// struct with one pointer field per capture (when there are captures),
/// then an inline task taking the environment and the parameters, whose
/// body is the rewritten closure body.
/// The fields of a closure's environment struct: a pointer per capture.
pub open spec fn env_fields(caps: Seq<(String, Type)>) -> Seq<(Seq<char>, SpecType)> {
    caps.map_values(|c: (String, Type)| (c.0@, SpecType::Ptr))
}

/// The parameters of a closure's task: the environment (where there are
/// captures), then the closure's own parameters as `int`s.
pub open spec fn closure_task_params(info: ClosureInfo, params: Seq<String>) -> Seq<(Seq<char>, SpecType)> {
    (if info.captures@.len() > 0 {
        seq![("__env"@, SpecType::Struct(info.env_struct_name@))]
    } else {
        Seq::empty()
    }) + params.map_values(|p: String| (p@, SpecType::Int))
}

pub fn generate_closure_stmts(info: &ClosureInfo, params: &Vec<String>, body: &Expr) -> (r: Vec<Stmt>)
    ensures
        r@.len() == if info.captures@.len() > 0 { 2int } else { 1int },
        r@.last()@ matches SpecStmt::TaskDecl { name, is_inline, is_async, body: b, params: ps, return_type, type_params, .. }
            && name == info.fn_name@ && is_inline && !is_async && return_type == SpecType::Int
            && type_params.len() == 0 && ps == closure_task_params(*info, params@) && b.statements.len() == 0
            && b.tail_expr == Some(rewrite_captures(body@, info.captures@.map_values(|c: (String, Type)| c.0@), "__env"@)),
        info.captures@.len() > 0 ==> (r@[0]@ matches SpecStmt::StructDecl { name, fields, type_params }
            && name == info.env_struct_name@ && fields == env_fields(info.captures@) && type_params.len() == 0),
{
    let mut stmts: Vec<Stmt> = Vec::new();
    if info.captures.len() > 0 {
        let mut fields: Vec<(String, Type)> = Vec::new();
        let mut i: usize = 0;
        while i < info.captures.len()
            invariant
                i <= info.captures@.len(),
                fields@.len() == i,
                crate::ast::typed_names_view(fields@) == env_fields(info.captures@.take(i as int)),
            decreases info.captures.len() - i,
        {
            let n = info.captures[i].0.clone();
            let ghost before = fields@;
            fields.push((n, Type::Ptr));
            proof {
                assert(crate::ast::typed_names_view(fields@) =~= crate::ast::typed_names_view(before).push((info.captures@[i as int].0@, SpecType::Ptr)));
                assert(env_fields(info.captures@.take(i + 1)) =~= env_fields(info.captures@.take(i as int)).push((info.captures@[i as int].0@, SpecType::Ptr)));
            }
            i = i + 1;
        }
        proof {
            assert(info.captures@.take(info.captures@.len() as int) =~= info.captures@);
        }
        let tps: Vec<String> = Vec::new();
        let st = Stmt::StructDecl { name: info.env_struct_name.clone(), type_params: tps, fields };
        proof {
            assert(crate::ast::strs_view(tps@) =~= Seq::<Seq<char>>::empty());
        }
        stmts.push(st);
    }
    let rewritten = rewrite_closure_body(body, &info.captures, "__env");
    let mut task_params: Vec<(String, Type)> = Vec::new();
    if info.captures.len() > 0 {
        task_params.push((String::from_str("__env"), Type::Struct(info.env_struct_name.clone())));
    }
    let ghost head = crate::ast::typed_names_view(task_params@);
    proof {
        if info.captures@.len() > 0 {
            assert(head =~= seq![("__env"@, SpecType::Struct(info.env_struct_name@))]);
        } else {
            assert(head =~= Seq::<(Seq<char>, SpecType)>::empty());
        }
    }
    let mut i: usize = 0;
    while i < params.len()
        invariant
            i <= params@.len(),
            crate::ast::typed_names_view(task_params@) == head + params@.take(i as int).map_values(|p: String| (p@, SpecType::Int)),
        decreases params.len() - i,
    {
        let ghost before = task_params@;
        task_params.push((params[i].clone(), Type::Int));
        proof {
            assert(crate::ast::typed_names_view(task_params@) =~= crate::ast::typed_names_view(before).push((params@[i as int]@, SpecType::Int)));
            assert(params@.take(i + 1).map_values(|p: String| (p@, SpecType::Int))
                =~= params@.take(i as int).map_values(|p: String| (p@, SpecType::Int)).push((params@[i as int]@, SpecType::Int)));
        }
        i = i + 1;
    }
    proof {
        assert(params@.take(params@.len() as int) =~= params@);
    }
    let tps: Vec<String> = Vec::new();
    let cs: Vec<(String, Vec<String>)> = Vec::new();
    let no_stmts: Vec<Stmt> = Vec::new();
    proof {
        assert(crate::ast::strs_view(tps@) =~= Seq::<Seq<char>>::empty());
        assert(crate::ast::stmts_view(no_stmts@) =~= Seq::<SpecStmt>::empty());
    }
    let task = Stmt::TaskDecl {
        name: info.fn_name.clone(),
        type_params: tps,
        constraints: cs,
        params: task_params,
        return_type: Type::Int,
        body: Block { statements: no_stmts, tail_expr: Some(rewritten) },
        is_inline: true,
        is_async: false,
    };
    stmts.push(task);
    stmts
}

} // verus!
