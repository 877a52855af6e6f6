//! Type inference: fills in the types a program leaves out, before
//! semantic analysis and code generation.
//!
//! `set x = "hello"` gives `x` the type `string`; a task with no declared
//! return type takes the type of its first `return`; a parameter declared
//! `_infer` takes the type of what it is first combined with.
use vstd::prelude::*;
use crate::ast::{
    Type, Expr, Stmt, Block, Program, BinOp, SpecType, SpecExpr, SpecStmt, type_view,
    stmts_view, opt_type_view, lemma_stmts_view, lemma_stmts_view_push, copy_type, copy_types, copy_expr,
    copy_opt_expr, copy_stmt, copy_strings, copy_constraints, copy_loop_kind,
};
use crate::text::{str_eq, concat2, u64_to_decimal, decimal};

verus! {

/// A type variable: an unknown type to be inferred.
#[derive(Clone, Copy, PartialEq, Eq, Structural, Debug)]
pub struct TypeVar(pub usize);

/// A constraint: the type variable stands for the type.
pub struct Constraint {
    pub var: TypeVar,
    pub ty: Type,
}

pub struct TypeInferencer {
    next_var: usize,
    /// The inferred type of each variable.
    pub inferred: Vec<(String, Type)>,
    /// The parameter types and return type of each task.
    pub task_types: Vec<(String, (Vec<Type>, Type))>,
    errors: Vec<String>,
}

/// The first entry for `n`, if any.
pub open spec fn first_type(m: Seq<(Seq<char>, SpecType)>, n: Seq<char>) -> Option<SpecType>
    decreases m.len(),
{
    if m.len() == 0 {
        None
    } else if m[0].0 == n {
        Some(m[0].1)
    } else {
        first_type(m.drop_first(), n)
    }
}

pub open spec fn or_int(o: Option<SpecType>) -> SpecType {
    match o {
        Some(t) => t,
        None => SpecType::Int,
    }
}

/// The type an expression is given, from the variable types `vars` and
/// the task return types `rets` known so far.
pub open spec fn expr_type(vars: Seq<(Seq<char>, SpecType)>, rets: Seq<(Seq<char>, SpecType)>, e: SpecExpr) -> SpecType
    decreases e,
{
    match e {
        SpecExpr::Integer(_) => SpecType::Int,
        SpecExpr::Float(_) => SpecType::Float,
        SpecExpr::Boolean(_) => SpecType::Bool,
        SpecExpr::StringLiteral(_) => SpecType::String,
        SpecExpr::Null => SpecType::Ptr,
        SpecExpr::Identifier(n) => or_int(first_type(vars, n)),
        SpecExpr::BinaryOp { left, op, right } => match op {
            BinOp::Eq | BinOp::Neq | BinOp::Lt | BinOp::Gt | BinOp::Le | BinOp::Ge | BinOp::And | BinOp::Or => SpecType::Bool,
            _ => {
                let lt = expr_type(vars, rets, *left);
                let rt = expr_type(vars, rets, *right);
                if lt == SpecType::Float || rt == SpecType::Float {
                    SpecType::Float
                } else {
                    lt
                }
            },
        },
        SpecExpr::Call { func, .. } => match *func {
            SpecExpr::Identifier(n) => or_int(first_type(rets, n)),
            _ => SpecType::Int,
        },
        SpecExpr::Array(elems) => SpecType::Array(Box::new(
            if elems.len() > 0 { expr_type(vars, rets, elems[0]) } else { SpecType::Int },
        )),
        SpecExpr::StructLiteral { name, .. } => SpecType::Struct(name),
        SpecExpr::Cast { to, .. } => to,
        SpecExpr::StrLen(_) => SpecType::Int,
        SpecExpr::StrConcat(_, _) => SpecType::String,
        _ => SpecType::Int,
    }
}

/// A declared type that inference replaces: none, or a placeholder type
/// variable (a generic name starting with `_`).
pub open spec fn needs_type(ty: Option<SpecType>) -> bool {
    match ty {
        None => true,
        Some(SpecType::Generic(s)) => "_"@.is_prefix_of(s),
        _ => false,
    }
}

pub open spec fn vars_model(v: Seq<(String, Type)>) -> Seq<(Seq<char>, SpecType)> {
    v.map_values(|p: (String, Type)| (p.0@, type_view(p.1)))
}

pub open spec fn rets_model(v: Seq<(String, (Vec<Type>, Type))>) -> Seq<(Seq<char>, SpecType)> {
    v.map_values(|p: (String, (Vec<Type>, Type))| (p.0@, type_view(p.1.1)))
}

/// How inference changes a statement it does not descend into or type:
/// not at all. Variable declarations get a type where `needs_type`.
pub open spec fn inferred_stmt(vars: Seq<(Seq<char>, SpecType)>, rets: Seq<(Seq<char>, SpecType)>, before: SpecStmt, after: SpecStmt) -> bool {
    match before {
        SpecStmt::VarDecl { name, ty, value, sensitive } => after == SpecStmt::VarDecl {
            name,
            ty: if needs_type(ty) { Some(expr_type(vars, rets, value)) } else { ty },
            value,
            sensitive,
        },
        SpecStmt::TaskDecl { .. } => after is TaskDecl,
        SpecStmt::Check { .. } => after is Check,
        SpecStmt::Loop { .. } => after is Loop,
        _ => after == before,
    }
}

/// A variable declaration that has a type, or another statement.
pub open spec fn typed_stmt(s: SpecStmt) -> bool {
    match s {
        SpecStmt::VarDecl { ty, .. } => ty is Some,
        _ => true,
    }
}

/// Every variable declaration has a type.
pub open spec fn all_typed(ss: Seq<SpecStmt>) -> bool {
    forall|i: int| 0 <= i < ss.len() ==> typed_stmt(#[trigger] ss[i])
}


/// Binding `n` to `t`: the first entry for `n` takes the type, or an entry
/// is appended when there is none.
pub open spec fn bind(m: Seq<(Seq<char>, SpecType)>, n: Seq<char>, t: SpecType) -> Seq<(Seq<char>, SpecType)> {
    if exists|i: int| 0 <= i < m.len() && m[i].0 == n {
        m.update(choose|i: int| 0 <= i < m.len() && m[i].0 == n && forall|j: int| 0 <= j < i ==> m[j].0 != n, (n, t))
    } else {
        m.push((n, t))
    }
}

/// What the inferencer knows between statements: the variable types and
/// the task return types.
pub type InferState = (Seq<(Seq<char>, SpecType)>, Seq<(Seq<char>, SpecType)>);

/// The type of what `name` is first combined with in `e`: the other side
/// of an operator it stands on, looking into operands and call arguments.
pub open spec fn param_in_expr_spec(st: InferState, name: Seq<char>, e: SpecExpr) -> Option<SpecType>
    decreases e,
{
    match e {
        SpecExpr::BinaryOp { left, right, .. } => {
            if *left == SpecExpr::Identifier(name) {
                Some(expr_type(st.0, st.1, *right))
            } else if *right == SpecExpr::Identifier(name) {
                Some(expr_type(st.0, st.1, *left))
            } else {
                match param_in_expr_spec(st, name, *left) {
                    Some(t) => Some(t),
                    None => param_in_expr_spec(st, name, *right),
                }
            }
        },
        SpecExpr::Call { args, .. } => param_in_args_spec(st, name, args),
        _ => None,
    }
}

pub open spec fn param_in_args_spec(st: InferState, name: Seq<char>, es: Seq<SpecExpr>) -> Option<SpecType>
    decreases es,
{
    if es.len() == 0 {
        None
    } else {
        match param_in_args_spec(st, name, es.drop_last()) {
            Some(t) => Some(t),
            None => param_in_expr_spec(st, name, es.last()),
        }
    }
}

/// The statements that can show a parameter's type: returns, expression
/// statements, prints and declarations.
pub open spec fn param_usage_spec(st: InferState, name: Seq<char>, s: SpecStmt) -> Option<SpecType> {
    match s {
        SpecStmt::Return(Some(e)) => param_in_expr_spec(st, name, e),
        SpecStmt::ExprStmt(e) => param_in_expr_spec(st, name, e),
        SpecStmt::Print(e) => param_in_expr_spec(st, name, e),
        SpecStmt::VarDecl { value, .. } => param_in_expr_spec(st, name, value),
        _ => None,
    }
}

pub open spec fn first_usage(st: InferState, name: Seq<char>, ss: Seq<SpecStmt>) -> Option<SpecType>
    decreases ss.len(),
{
    if ss.len() == 0 {
        None
    } else {
        match first_usage(st, name, ss.drop_last()) {
            Some(t) => Some(t),
            None => param_usage_spec(st, name, ss.last()),
        }
    }
}

/// The type of a parameter declared `_infer`: from the first statement of
/// the body that shows it, `int` where none does.
pub open spec fn param_type_spec(st: InferState, name: Seq<char>, ss: Seq<SpecStmt>) -> SpecType {
    match first_usage(st, name, ss) {
        Some(t) => t,
        None => SpecType::Int,
    }
}

/// The value of the first `return` with a value among the statements.
pub open spec fn first_return(ss: Seq<SpecStmt>) -> Option<SpecExpr>
    decreases ss.len(),
{
    if ss.len() == 0 {
        None
    } else {
        match first_return(ss.drop_last()) {
            Some(e) => Some(e),
            None => match ss.last() {
                SpecStmt::Return(Some(e)) => Some(e),
                _ => None,
            },
        }
    }
}

/// A body's type: that of its first `return` with a value, else of its
/// tail expression, else `void`.
pub open spec fn return_type_spec(st: InferState, b: crate::ast::SpecBlock) -> SpecType {
    match first_return(b.statements) {
        Some(e) => expr_type(st.0, st.1, e),
        None => if b.tail_expr is Some { expr_type(st.0, st.1, b.tail_expr->0) } else { SpecType::Void },
    }
}

/// A task's parameters with those declared `_infer` given their type.
pub open spec fn params_spec(st: InferState, params: Seq<(Seq<char>, SpecType)>, body: Seq<SpecStmt>) -> Seq<(Seq<char>, SpecType)> {
    params.map_values(|p: (Seq<char>, SpecType)|
        if p.1 == SpecType::Generic("_infer"@) { (p.0, param_type_spec(st, p.0, body)) } else { p })
}

/// Inference of one statement: declarations get their missing types and
/// bind them, assignments bind their value's type, tasks get their
/// inferred parameter and return types, which are bound, and the bodies of
/// tasks, checks and loops are inferred in turn.
pub open spec fn infer_stmt_spec(st: InferState, s: SpecStmt) -> (InferState, SpecStmt)
    decreases s,
{
    match s {
        SpecStmt::VarDecl { name, ty, value, sensitive } => {
            let t = expr_type(st.0, st.1, value);
            if needs_type(ty) {
                ((bind(st.0, name, t), st.1), SpecStmt::VarDecl { name, ty: Some(t), value, sensitive })
            } else {
                (st, s)
            }
        },
        SpecStmt::TaskDecl { name, type_params, constraints, params, return_type, body, is_inline, is_async } => {
            let new_params = params_spec(st, params, body.statements);
            let inferred_ret = return_type_spec(st, body);
            let ret = if return_type == SpecType::Void && inferred_ret != SpecType::Void { inferred_ret } else { return_type };
            let st1 = (st.0, bind(st.1, name, ret));
            let (st2, stmts) = infer_stmts_spec(st1, body.statements);
            (st2, SpecStmt::TaskDecl {
                name,
                type_params,
                constraints,
                params: new_params,
                return_type: ret,
                body: crate::ast::SpecBlock { statements: stmts, tail_expr: body.tail_expr },
                is_inline,
                is_async,
            })
        },
        SpecStmt::Assign { name, value } => ((bind(st.0, name, expr_type(st.0, st.1, value)), st.1), s),
        SpecStmt::Check { condition, then_block, else_block } => {
            let (st1, ts) = infer_stmts_spec(st, then_block.statements);
            let then2 = crate::ast::SpecBlock { statements: ts, tail_expr: then_block.tail_expr };
            if else_block is Some {
                let eb = else_block->0;
                let (st2, es) = infer_stmts_spec(st1, eb.statements);
                (st2, SpecStmt::Check {
                    condition,
                    then_block: then2,
                    else_block: Some(crate::ast::SpecBlock { statements: es, tail_expr: eb.tail_expr }),
                })
            } else {
                (st1, SpecStmt::Check { condition, then_block: then2, else_block: None })
            }
        },
        SpecStmt::Loop { kind, body } => {
            let (st1, bs) = infer_stmts_spec(st, body.statements);
            (st1, SpecStmt::Loop { kind, body: crate::ast::SpecBlock { statements: bs, tail_expr: body.tail_expr } })
        },
        _ => (st, s),
    }
}

pub open spec fn infer_stmts_spec(st: InferState, ss: Seq<SpecStmt>) -> (InferState, Seq<SpecStmt>)
    decreases ss,
{
    if ss.len() == 0 {
        (st, Seq::empty())
    } else {
        let (st1, prev) = infer_stmts_spec(st, ss.drop_last());
        let (st2, x) = infer_stmt_spec(st1, ss.last());
        (st2, prev.push(x))
    }
}

/// The declared return types of the tasks among the statements, bound in
/// order.
pub open spec fn declared_rets(rets: Seq<(Seq<char>, SpecType)>, ss: Seq<SpecStmt>) -> Seq<(Seq<char>, SpecType)>
    decreases ss.len(),
{
    if ss.len() == 0 {
        rets
    } else {
        let prev = declared_rets(rets, ss.drop_last());
        match ss.last() {
            SpecStmt::TaskDecl { name, return_type, .. } => bind(prev, name, return_type),
            _ => prev,
        }
    }
}

/// What inference makes of a program's statements: the declared return
/// types of its tasks are bound first, then the statements are inferred in
/// order.
pub open spec fn infer_program_spec(ss: Seq<SpecStmt>) -> Seq<SpecStmt> {
    infer_stmts_spec((Seq::empty(), declared_rets(Seq::empty(), ss)), ss).1
}

/// The first entry for `name`, replaced or appended.
pub open spec fn put_seq<T>(v: Seq<(String, T)>, name: String, val: T) -> Seq<(String, T)> {
    if exists|i: int| 0 <= i < v.len() && v[i].0@ == name@ {
        v.update(choose|i: int| 0 <= i < v.len() && v[i].0@ == name@ && forall|j: int| 0 <= j < i ==> v[j].0@ != name@, (name, val))
    } else {
        v.push((name, val))
    }
}

fn find_first<T>(v: &Vec<(String, T)>, name: &str) -> (r: Option<usize>)
    ensures
        r matches Some(i) ==> i < v@.len() && v@[i as int].0@ == name@ && forall|j: int| 0 <= j < i ==> v@[j].0@ != name@,
        r is None ==> forall|i: int| 0 <= i < v@.len() ==> v@[i].0@ != name@,
{
    let mut i: usize = 0;
    while i < v.len()
        invariant
            i <= v@.len(),
            forall|j: int| 0 <= j < i ==> v@[j].0@ != name@,
        decreases v.len() - i,
    {
        if str_eq(v[i].0.as_str(), name) {
            return Some(i);
        }
        i = i + 1;
    }
    None
}

proof fn lemma_first_type(m: Seq<(Seq<char>, SpecType)>, n: Seq<char>, i: int)
    requires
        0 <= i <= m.len(),
        forall|j: int| 0 <= j < i ==> m[j].0 != n,
    ensures
        first_type(m, n) == first_type(m.skip(i), n),
    decreases i,
{
    if i > 0 {
        assert(m.skip(1) =~= m.drop_first());
        lemma_first_type(m.drop_first(), n, i - 1);
        assert(m.drop_first().skip(i - 1) =~= m.skip(i));
    } else {
        assert(m.skip(0) =~= m);
    }
}

fn has_prefix(s: &str, p: &str) -> (r: bool)
    ensures
        r == p@.is_prefix_of(s@),
{
    let sc = crate::text::chars_of(s);
    let pc = crate::text::chars_of(p);
    if pc.len() > sc.len() {
        return false;
    }
    let mut i: usize = 0;
    while i < pc.len()
        invariant
            i <= pc@.len(),
            pc@.len() <= sc@.len(),
            sc@ == s@,
            pc@ == p@,
            forall|j: int| 0 <= j < i ==> pc@[j] == sc@[j],
        decreases pc.len() - i,
    {
        if pc[i] != sc[i] {
            return false;
        }
        i = i + 1;
    }
    assert(p@ =~= s@.subrange(0, p@.len() as int));
    true
}

fn put_first<T>(v: &mut Vec<(String, T)>, name: String, val: T)
    ensures
        final(v)@ == put_seq(old(v)@, name, val),
{
    match find_first(v, name.as_str()) {
        Some(i) => {
            proof {
                let c = choose|c: int| 0 <= c < v@.len() && v@[c].0@ == name@ && forall|j: int| 0 <= j < c ==> v@[j].0@ != name@;
                if c < i {
                }
                if c > i {
                }
                assert(c == i);
            }
            v.set(i, (name, val));
        },
        None => v.push((name, val)),
    }
}

/// When some entry has the name, a first one does.
proof fn lemma_first_named<T>(v: Seq<(String, T)>, name: Seq<char>)
    requires
        exists|i: int| 0 <= i < v.len() && v[i].0@ == name,
    ensures
        exists|i: int| 0 <= i < v.len() && v[i].0@ == name && forall|j: int| 0 <= j < i ==> v[j].0@ != name,
    decreases v.len(),
{
    let w = v.drop_last();
    if exists|i: int| 0 <= i < w.len() && w[i].0@ == name {
        lemma_first_named(w, name);
        let c = choose|i: int| 0 <= i < w.len() && w[i].0@ == name && forall|j: int| 0 <= j < i ==> w[j].0@ != name;
        assert(v[c] == w[c]);
        assert forall|j: int| 0 <= j < c implies v[j].0@ != name by {
            assert(v[j] == w[j]);
        }
    } else {
        let k = v.len() - 1;
        let i0 = choose|i: int| 0 <= i < v.len() && v[i].0@ == name;
        if i0 < k {
            assert(w[i0] == v[i0]);
        }
        assert forall|j: int| 0 <= j < k implies v[j].0@ != name by {
            assert(w[j] == v[j]);
        }
    }
}

proof fn lemma_put_vars(v: Seq<(String, Type)>, name: String, t: Type)
    ensures
        vars_model(put_seq(v, name, t)) == bind(vars_model(v), name@, t@),
{
    let m = vars_model(v);
    if exists|i: int| 0 <= i < v.len() && v[i].0@ == name@ {
        lemma_first_named(v, name@);
        let c = choose|i: int| 0 <= i < v.len() && v[i].0@ == name@ && forall|j: int| 0 <= j < i ==> v[j].0@ != name@;
        assert(m[c].0 == name@);
        let d = choose|i: int| 0 <= i < m.len() && m[i].0 == name@ && forall|j: int| 0 <= j < i ==> m[j].0 != name@;
        if d < c {
            assert(m[d].0 == v[d].0@);
        }
        if c < d {
            assert(m[c].0 == name@);
        }
        assert(vars_model(put_seq(v, name, t)) =~= bind(m, name@, t@));
    } else {
        assert forall|i: int| 0 <= i < m.len() implies m[i].0 != name@ by {
            assert(m[i].0 == v[i].0@);
        }
        assert(vars_model(put_seq(v, name, t)) =~= bind(m, name@, t@));
    }
}

proof fn lemma_put_rets(v: Seq<(String, (Vec<Type>, Type))>, name: String, e: (Vec<Type>, Type))
    ensures
        rets_model(put_seq(v, name, e)) == bind(rets_model(v), name@, e.1@),
{
    let m = rets_model(v);
    if exists|i: int| 0 <= i < v.len() && v[i].0@ == name@ {
        lemma_first_named(v, name@);
        let c = choose|i: int| 0 <= i < v.len() && v[i].0@ == name@ && forall|j: int| 0 <= j < i ==> v[j].0@ != name@;
        assert(m[c].0 == name@);
        let d = choose|i: int| 0 <= i < m.len() && m[i].0 == name@ && forall|j: int| 0 <= j < i ==> m[j].0 != name@;
        if d < c {
            assert(m[d].0 == v[d].0@);
        }
        if c < d {
            assert(m[c].0 == name@);
        }
        assert(rets_model(put_seq(v, name, e)) =~= bind(m, name@, e.1@));
    } else {
        assert forall|i: int| 0 <= i < m.len() implies m[i].0 != name@ by {
            assert(m[i].0 == v[i].0@);
        }
        assert(rets_model(put_seq(v, name, e)) =~= bind(m, name@, e.1@));
    }
}

impl TypeInferencer {
    /// What the inferencer knows: the variable types and task return types.
    pub closed spec fn state(&self) -> InferState {
        (vars_model(self.inferred@), rets_model(self.task_types@))
    }

    /// The variable types inferred so far.
    pub closed spec fn vars(&self) -> Seq<(Seq<char>, SpecType)> {
        vars_model(self.inferred@)
    }

    /// The return type recorded for each task.
    pub closed spec fn rets(&self) -> Seq<(Seq<char>, SpecType)> {
        rets_model(self.task_types@)
    }

    /// The number of the next fresh type variable (`_t` and that number).
    pub closed spec fn counter(&self) -> nat {
        self.next_var as nat
    }

    /// The errors reported so far.
    pub closed spec fn error_list(&self) -> Seq<String> {
        self.errors@
    }

    pub fn new() -> (r: TypeInferencer)
        ensures
            r.vars().len() == 0,
            r.rets().len() == 0,
            r.state() == (Seq::<(Seq<char>, SpecType)>::empty(), Seq::<(Seq<char>, SpecType)>::empty()),
            r.counter() == 0,
            r.error_list().len() == 0,
    {
        let r = TypeInferencer { next_var: 0, inferred: Vec::new(), task_types: Vec::new(), errors: Vec::new() };
        assert(vars_model(r.inferred@) =~= Seq::<(Seq<char>, SpecType)>::empty());
        assert(rets_model(r.task_types@) =~= Seq::<(Seq<char>, SpecType)>::empty());
        r
    }

    /// Fills in the missing types of the program's statements: the
    /// declared return types of its tasks are recorded first, then the
    /// statements are inferred in order (see `infer_stmt_spec`).
    pub fn infer_program(&mut self, program: &mut Program)
        ensures
            final(program)@.statements.len() == old(program)@.statements.len(),
            all_typed(final(program)@.statements),
            (final(self).state(), final(program)@.statements) == infer_stmts_spec(
                (old(self).state().0, declared_rets(old(self).state().1, old(program)@.statements)),
                old(program)@.statements,
            ),
    {
        let ghost ss = old(program)@.statements;
        let ghost st0 = self.state();
        let mut i: usize = 0;
        while i < program.statements.len()
            invariant
                i <= program.statements@.len(),
                ss == stmts_view(program.statements@),
                self.state().0 == st0.0,
                self.state().1 == declared_rets(st0.1, stmts_view(program.statements@.take(i as int))),
            decreases program.statements.len() - i,
        {
            proof {
                lemma_stmts_view_push(program.statements@.take(i as int), program.statements@[i as int]);
                assert(program.statements@.take(i as int).push(program.statements@[i as int]) =~= program.statements@.take(i + 1));
                assert(stmts_view(program.statements@.take(i + 1)).drop_last() =~= stmts_view(program.statements@.take(i as int)));
            }
            self.collect_types(&program.statements[i]);
            i = i + 1;
        }
        proof {
            assert(program.statements@.take(program.statements@.len() as int) =~= program.statements@);
        }
        let out = self.infer_stmts(&program.statements);
        proof {
            lemma_stmts_view(out@);
            lemma_stmts_view(old(program).statements@);
            assert forall|i: int| 0 <= i < stmts_view(out@).len() implies typed_stmt(#[trigger] stmts_view(out@)[i]) by {
                assert(stmts_view(out@)[i] == out@[i]@);
            }
        }
        program.statements = out;
    }

    /// A new placeholder type `_t<n>`.
    fn fresh_var(&mut self) -> (r: Type)
        requires
            old(self).next_var < usize::MAX,
        ensures
            r@ == SpecType::Generic("_t"@ + decimal(old(self).counter())),
            final(self).counter() == old(self).counter() + 1,
            final(self).next_var == old(self).next_var + 1,
    {
        let id = self.next_var;
        self.next_var = id + 1;
        let digits = u64_to_decimal(id as u64);
        Type::Generic(concat2("_t", digits.as_str()))
    }

    /// Records a task's declared parameter and return types.
    fn collect_types(&mut self, stmt: &Stmt)
        ensures
            final(self).state().0 == old(self).state().0,
            final(self).state().1 == match stmt@ {
                SpecStmt::TaskDecl { name, return_type, .. } => bind(old(self).state().1, name, return_type),
                _ => old(self).state().1,
            },
    {
        match stmt {
            Stmt::TaskDecl { name, params, return_type, .. } => {
                let mut ptypes: Vec<Type> = Vec::new();
                let mut i: usize = 0;
                while i < params.len()
                    decreases params.len() - i,
                {
                    ptypes.push(copy_type(&params[i].1));
                    i = i + 1;
                }
                let e = (ptypes, copy_type(return_type));
                proof {
                    lemma_put_rets(self.task_types@, *name, e);
                }
                put_first(&mut self.task_types, name.clone(), e);
            },
            _ => {},
        }
    }

    fn infer_stmts(&mut self, v: &Vec<Stmt>) -> (r: Vec<Stmt>)
        ensures
            r@.len() == v@.len(),
            forall|i: int| 0 <= i < v@.len() ==> typed_stmt((#[trigger] r@[i])@),
            (final(self).state(), stmts_view(r@)) == infer_stmts_spec(old(self).state(), stmts_view(v@)),
        decreases v,
    {
        let ghost st0 = self.state();
        let mut r: Vec<Stmt> = Vec::new();
        let mut i: usize = 0;
        while i < v.len()
            invariant
                i <= v@.len(),
                r@.len() == i,
                forall|k: int| 0 <= k < i ==> typed_stmt((#[trigger] r@[k])@),
                (self.state(), stmts_view(r@)) == infer_stmts_spec(st0, stmts_view(v@.take(i as int))),
            decreases v.len() - i,
        {
            proof {
                lemma_stmts_view_push(v@.take(i as int), v@[i as int]);
                assert(v@.take(i as int).push(v@[i as int]) =~= v@.take(i + 1));
                assert(stmts_view(v@.take(i + 1)).drop_last() =~= stmts_view(v@.take(i as int)));
            }
            let s = self.infer_stmt(&v[i]);
            proof {
                lemma_stmts_view_push(r@, s);
            }
            r.push(s);
            i = i + 1;
        }
        proof {
            assert(v@.take(v@.len() as int) =~= v@);
        }
        r
    }

    fn infer_block_stmts(&mut self, b: &Block) -> (r: Block)
        ensures
            (final(self).state(), r@.statements) == infer_stmts_spec(old(self).state(), b@.statements),
            r@.tail_expr == b@.tail_expr,
            forall|i: int| 0 <= i < r.statements@.len() ==> typed_stmt((#[trigger] r.statements@[i])@),
        decreases b,
    {
        let statements = self.infer_stmts(&b.statements);
        Block { statements, tail_expr: copy_opt_expr(&b.tail_expr) }
    }

    fn infer_params(&self, params: &Vec<(String, Type)>, body: &Block) -> (r: Vec<(String, Type)>)
        ensures
            crate::ast::typed_names_view(r@) == params_spec(self.state(), crate::ast::typed_names_view(params@), stmts_view(body.statements@)),
    {
        let mut new_params: Vec<(String, Type)> = Vec::new();
        let mut i: usize = 0;
        while i < params.len()
            invariant
                i <= params@.len(),
                new_params@.len() == i,
                forall|j: int| 0 <= j < i ==> (#[trigger] crate::ast::typed_names_view(new_params@)[j])
                    == params_spec(self.state(), crate::ast::typed_names_view(params@), stmts_view(body.statements@))[j],
            decreases params.len() - i,
        {
            let placeholder = match &params[i].1 {
                Type::Generic(s) => str_eq(s.as_str(), "_infer"),
                _ => false,
            };
            proof {
                assert(crate::ast::typed_names_view(params@)[i as int] == (params@[i as int].0@, type_view(params@[i as int].1)));
                assert(placeholder == (type_view(params@[i as int].1) == SpecType::Generic("_infer"@)));
            }
            let t = if placeholder {
                self.infer_param_type(params[i].0.as_str(), body)
            } else {
                copy_type(&params[i].1)
            };
            let ghost before = new_params@;
            let ghost entry = (params@[i as int].0@, t@);
            new_params.push((params[i].0.clone(), t));
            proof {
                assert(crate::ast::typed_names_view(new_params@) =~= crate::ast::typed_names_view(before).push(entry));
            }
            i = i + 1;
        }
        assert(crate::ast::typed_names_view(new_params@) =~= params_spec(self.state(), crate::ast::typed_names_view(params@), stmts_view(body.statements@)));
        new_params
    }

    /// One statement with its missing types filled in (see
    /// `infer_stmt_spec`).
    #[verifier::rlimit(100)]
    #[verifier::spinoff_prover]
    fn infer_stmt(&mut self, stmt: &Stmt) -> (r: Stmt)
        ensures
            (final(self).state(), r@) == infer_stmt_spec(old(self).state(), stmt@),
            typed_stmt(r@),
        decreases stmt,
    {
        match stmt {
            Stmt::VarDecl { name, ty, value, sensitive } => {
                let inferred = self.infer_expr_type(value);
                let needs = match ty {
                    None => true,
                    Some(Type::Generic(s)) => has_prefix(s.as_str(), "_"),
                    Some(_) => false,
                };
                proof {
                    assert(needs == needs_type(opt_type_view(*ty)));
                }
                if needs {
                    let t2 = copy_type(&inferred);
                    proof {
                        lemma_put_vars(self.inferred@, *name, t2);
                    }
                    put_first(&mut self.inferred, name.clone(), t2);
                    Stmt::VarDecl { name: name.clone(), ty: Some(inferred), value: copy_expr(value), sensitive: *sensitive }
                } else {
                    Stmt::VarDecl { name: name.clone(), ty: crate::ast::copy_opt_type(ty), value: copy_expr(value), sensitive: *sensitive }
                }
            },
            Stmt::TaskDecl { name, type_params, constraints, params, return_type, body, is_inline, is_async } => {
                let new_params = self.infer_params(params, body);
                let mut ret = copy_type(return_type);
                if matches!(return_type, Type::Void) {
                    let inferred_ret = self.infer_return_type(body);
                    if !matches!(inferred_ret, Type::Void) {
                        ret = inferred_ret;
                    }
                }
                let mut ptypes: Vec<Type> = Vec::new();
                let mut k: usize = 0;
                while k < new_params.len()
                    decreases new_params.len() - k,
                {
                    ptypes.push(copy_type(&new_params[k].1));
                    k = k + 1;
                }
                let e = (ptypes, copy_type(&ret));
                proof {
                    lemma_put_rets(self.task_types@, *name, e);
                }
                put_first(&mut self.task_types, name.clone(), e);
                let new_body = self.infer_block_stmts(body);
                Stmt::TaskDecl {
                    name: name.clone(),
                    type_params: copy_strings(type_params),
                    constraints: copy_constraints(constraints),
                    params: new_params,
                    return_type: ret,
                    body: new_body,
                    is_inline: *is_inline,
                    is_async: *is_async,
                }
            },
            Stmt::Assign { name, value } => {
                let inferred = self.infer_expr_type(value);
                proof {
                    lemma_put_vars(self.inferred@, *name, inferred);
                }
                put_first(&mut self.inferred, name.clone(), inferred);
                copy_stmt(stmt)
            },
            Stmt::Check { condition, then_block, else_block } => {
                let new_then = self.infer_block_stmts(then_block);
                let new_else = match else_block {
                    Some(eb) => Some(self.infer_block_stmts(eb)),
                    None => None,
                };
                Stmt::Check { condition: copy_expr(condition), then_block: new_then, else_block: new_else }
            },
            Stmt::Loop { kind, body } => {
                let new_body = self.infer_block_stmts(body);
                Stmt::Loop { kind: copy_loop_kind(kind), body: new_body }
            },
            other => copy_stmt(other),
        }
    }

    /// The type an expression is given (see `expr_type`).
    fn infer_expr_type(&self, expr: &Expr) -> (r: Type)
        ensures
            r@ == expr_type(vars_model(self.inferred@), rets_model(self.task_types@), expr@),
        decreases expr,
    {
        proof {
            reveal_with_fuel(crate::ast::expr_view, 2);
        }
        match expr {
            Expr::Integer(_) => Type::Int,
            Expr::Float(_) => Type::Float,
            Expr::Boolean(_) => Type::Bool,
            Expr::StringLiteral(_) => Type::String,
            Expr::Null => Type::Ptr,
            Expr::Identifier(name) => match find_first(&self.inferred, name.as_str()) {
                Some(i) => {
                    proof {
                        lemma_first_type(vars_model(self.inferred@), name@, i as int);
                    }
                    copy_type(&self.inferred[i].1)
                },
                None => {
                    proof {
                        lemma_first_type(vars_model(self.inferred@), name@, self.inferred@.len() as int);
                    }
                    Type::Int
                },
            },
            Expr::BinaryOp { left, op, right } => {
                match op {
                    BinOp::Eq | BinOp::Neq | BinOp::Lt | BinOp::Gt | BinOp::Le | BinOp::Ge | BinOp::And | BinOp::Or => Type::Bool,
                    _ => {
                        let lt = self.infer_expr_type(left);
                        let rt = self.infer_expr_type(right);
                        if matches!(lt, Type::Float) || matches!(rt, Type::Float) {
                            Type::Float
                        } else {
                            lt
                        }
                    },
                }
            },
            Expr::Call { func, .. } => match &**func {
                Expr::Identifier(name) => match find_first(&self.task_types, name.as_str()) {
                    Some(i) => {
                        proof {
                            lemma_first_type(rets_model(self.task_types@), name@, i as int);
                        }
                        copy_type(&self.task_types[i].1.1)
                    },
                    None => {
                        proof {
                            lemma_first_type(rets_model(self.task_types@), name@, self.task_types@.len() as int);
                        }
                        Type::Int
                    },
                },
                _ => Type::Int,
            },
            Expr::Array(elems) => {
                let elem = if elems.len() > 0 {
                    proof {
                        crate::ast::lemma_exprs_view(elems@);
                    }
                    self.infer_expr_type(&elems[0])
                } else {
                    proof {
                        crate::ast::lemma_exprs_view(elems@);
                    }
                    Type::Int
                };
                Type::Array(Box::new(elem))
            },
            Expr::StructLiteral { name, .. } => Type::Struct(name.clone()),
            Expr::Cast { to, .. } => copy_type(to),
            Expr::StrLen(_) => Type::Int,
            Expr::StrConcat(_, _) => Type::String,
            _ => Type::Int,
        }
    }

    /// The type of a parameter, from the first statement of the body that
    /// combines it with something (`int` if none does).
    fn infer_param_type(&self, param_name: &str, body: &Block) -> (r: Type)
        ensures
            r@ == param_type_spec(self.state(), param_name@, stmts_view(body.statements@)),
    {
        let ghost ss = stmts_view(body.statements@);
        let mut i: usize = 0;
        while i < body.statements.len()
            invariant
                i <= body.statements@.len(),
                first_usage(self.state(), param_name@, stmts_view(body.statements@.take(i as int))) is None,
            decreases body.statements.len() - i,
        {
            proof {
                lemma_stmts_view_push(body.statements@.take(i as int), body.statements@[i as int]);
                assert(body.statements@.take(i as int).push(body.statements@[i as int]) =~= body.statements@.take(i + 1));
                assert(stmts_view(body.statements@.take(i + 1)).drop_last() =~= stmts_view(body.statements@.take(i as int)));
            }
            match self.infer_param_usage(param_name, &body.statements[i]) {
                Some(t) => {
                    proof {
                        lemma_first_usage_prefix(self.state(), param_name@, body.statements@, i + 1);
                    }
                    return t;
                },
                None => {},
            }
            i = i + 1;
        }
        proof {
            assert(body.statements@.take(body.statements@.len() as int) =~= body.statements@);
        }
        Type::Int
    }

    fn infer_param_usage(&self, name: &str, stmt: &Stmt) -> (r: Option<Type>)
        ensures
            opt_type_view(r) == param_usage_spec(self.state(), name@, stmt@),
    {
        match stmt {
            Stmt::Return(Some(e)) => self.infer_param_in_expr(name, e),
            Stmt::ExprStmt(e) => self.infer_param_in_expr(name, e),
            Stmt::Print(e) => self.infer_param_in_expr(name, e),
            Stmt::VarDecl { value, .. } => self.infer_param_in_expr(name, value),
            _ => None,
        }
    }

    /// The type of what `name` is combined with in `expr`, if anything.
    fn infer_param_in_expr(&self, name: &str, expr: &Expr) -> (r: Option<Type>)
        ensures
            opt_type_view(r) == param_in_expr_spec(self.state(), name@, expr@),
        decreases expr,
    {
        match expr {
            Expr::BinaryOp { left, right, .. } => {
                if is_ident(left, name) {
                    return Some(self.infer_expr_type(right));
                }
                if is_ident(right, name) {
                    return Some(self.infer_expr_type(left));
                }
                match self.infer_param_in_expr(name, left) {
                    Some(t) => Some(t),
                    None => self.infer_param_in_expr(name, right),
                }
            },
            Expr::Call { args, .. } => self.infer_param_in_args(name, args),
            _ => None,
        }
    }

    fn infer_param_in_args(&self, name: &str, args: &Vec<Expr>) -> (r: Option<Type>)
        ensures
            opt_type_view(r) == param_in_args_spec(self.state(), name@, crate::ast::exprs_view(args@)),
        decreases args,
    {
        let mut i: usize = 0;
        while i < args.len()
            invariant
                i <= args@.len(),
                param_in_args_spec(self.state(), name@, crate::ast::exprs_view(args@.take(i as int))) is None,
            decreases args.len() - i,
        {
            proof {
                crate::ast::lemma_exprs_view_push(args@.take(i as int), args@[i as int]);
                assert(args@.take(i as int).push(args@[i as int]) =~= args@.take(i + 1));
                assert(crate::ast::exprs_view(args@.take(i + 1)).drop_last() =~= crate::ast::exprs_view(args@.take(i as int)));
            }
            match self.infer_param_in_expr(name, &args[i]) {
                Some(t) => {
                    proof {
                        lemma_args_prefix(self.state(), name@, args@, i + 1);
                    }
                    return Some(t);
                },
                None => {},
            }
            i = i + 1;
        }
        proof {
            assert(args@.take(args@.len() as int) =~= args@);
        }
        None
    }

    /// The type of the first `return` of the body, else of its tail
    /// expression, else `void`.
    fn infer_return_type(&self, body: &Block) -> (r: Type)
        ensures
            r@ == return_type_spec(self.state(), body@),
    {
        let mut i: usize = 0;
        while i < body.statements.len()
            invariant
                i <= body.statements@.len(),
                first_return(stmts_view(body.statements@.take(i as int))) is None,
            decreases body.statements.len() - i,
        {
            proof {
                lemma_stmts_view_push(body.statements@.take(i as int), body.statements@[i as int]);
                assert(body.statements@.take(i as int).push(body.statements@[i as int]) =~= body.statements@.take(i + 1));
                assert(stmts_view(body.statements@.take(i + 1)).drop_last() =~= stmts_view(body.statements@.take(i as int)));
            }
            match return_value(&body.statements[i]) {
                Some(e) => {
                    proof {
                        lemma_first_return_prefix(body.statements@, i + 1);
                    }
                    return self.infer_expr_type(e);
                },
                None => {},
            }
            i = i + 1;
        }
        proof {
            assert(body.statements@.take(body.statements@.len() as int) =~= body.statements@);
        }
        match &body.tail_expr {
            Some(tail) => self.infer_expr_type(tail),
            None => Type::Void,
        }
    }
}

/// Whether `e` is the identifier `name`.
#[verifier::rlimit(100)]
#[verifier::spinoff_prover]
fn is_ident(e: &Expr, name: &str) -> (r: bool)
    ensures
        r == (e@ == SpecExpr::Identifier(name@)),
{
    match e {
        Expr::Identifier(n) => str_eq(n.as_str(), name),
        _ => false,
    }
}

/// The value of a `return` statement that has one.
#[verifier::rlimit(100)]
#[verifier::spinoff_prover]
fn return_value(s: &Stmt) -> (r: Option<&Expr>)
    ensures
        match r {
            Some(e) => s@ == SpecStmt::Return(Some(e@)),
            None => !(s@ matches SpecStmt::Return(Some(_))),
        },
{
    match s {
        Stmt::Return(Some(e)) => Some(e),
        _ => None,
    }
}

/// Once a prefix of the statements shows the parameter, the whole does the
/// same.
proof fn lemma_first_usage_prefix(st: InferState, name: Seq<char>, v: Seq<Stmt>, k: int)
    requires
        0 <= k <= v.len(),
        first_usage(st, name, stmts_view(v.take(k))) is Some,
    ensures
        first_usage(st, name, stmts_view(v)) == first_usage(st, name, stmts_view(v.take(k))),
    decreases v.len() - k,
{
    if k < v.len() {
        lemma_stmts_view_push(v.take(k), v[k]);
        assert(v.take(k).push(v[k]) =~= v.take(k + 1));
        assert(stmts_view(v.take(k + 1)).drop_last() =~= stmts_view(v.take(k)));
        lemma_first_usage_prefix(st, name, v, k + 1);
    } else {
        assert(v.take(k) =~= v);
    }
}

proof fn lemma_args_prefix(st: InferState, name: Seq<char>, v: Seq<Expr>, k: int)
    requires
        0 <= k <= v.len(),
        param_in_args_spec(st, name, crate::ast::exprs_view(v.take(k))) is Some,
    ensures
        param_in_args_spec(st, name, crate::ast::exprs_view(v)) == param_in_args_spec(st, name, crate::ast::exprs_view(v.take(k))),
    decreases v.len() - k,
{
    if k < v.len() {
        crate::ast::lemma_exprs_view_push(v.take(k), v[k]);
        assert(v.take(k).push(v[k]) =~= v.take(k + 1));
        assert(crate::ast::exprs_view(v.take(k + 1)).drop_last() =~= crate::ast::exprs_view(v.take(k)));
        lemma_args_prefix(st, name, v, k + 1);
    } else {
        assert(v.take(k) =~= v);
    }
}

proof fn lemma_first_return_prefix(v: Seq<Stmt>, k: int)
    requires
        0 <= k <= v.len(),
        first_return(stmts_view(v.take(k))) is Some,
    ensures
        first_return(stmts_view(v)) == first_return(stmts_view(v.take(k))),
    decreases v.len() - k,
{
    if k < v.len() {
        lemma_stmts_view_push(v.take(k), v[k]);
        assert(v.take(k).push(v[k]) =~= v.take(k + 1));
        assert(stmts_view(v.take(k + 1)).drop_last() =~= stmts_view(v.take(k)));
        lemma_first_return_prefix(v, k + 1);
    } else {
        assert(v.take(k) =~= v);
    }
}

/// Applies type inference to a program, filling in missing types.
pub fn infer(program: &mut Program)
    ensures
        final(program)@.statements.len() == old(program)@.statements.len(),
        all_typed(final(program)@.statements),
        final(program)@.statements == infer_program_spec(old(program)@.statements),
{
    let mut inferencer = TypeInferencer::new();
    inferencer.infer_program(program);
}

/// An expression whose value is a boolean: a boolean literal, a
/// comparison, or `and` / `or`.
pub open spec fn boolean_valued(e: SpecExpr) -> bool {
    match e {
        SpecExpr::Boolean(_) => true,
        SpecExpr::BinaryOp { op, .. } => op == BinOp::Eq || op == BinOp::Neq || op == BinOp::Lt || op == BinOp::Gt
            || op == BinOp::Le || op == BinOp::Ge || op == BinOp::And || op == BinOp::Or,
        _ => false,
    }
}

proof fn lemma_first_type_at(m: Seq<(Seq<char>, SpecType)>, n: Seq<char>, k: int)
    requires
        0 <= k < m.len(),
        m[k].0 == n,
        forall|j: int| 0 <= j < k ==> m[j].0 != n,
    ensures
        first_type(m, n) == Some(m[k].1),
    decreases k,
{
    if k > 0 {
        let d = m.drop_first();
        assert forall|j: int| 0 <= j < k - 1 implies d[j].0 != n by {
            assert(d[j] == m[j + 1]);
        }
        lemma_first_type_at(d, n, k - 1);
    }
}

proof fn lemma_first_binding(m: Seq<(Seq<char>, SpecType)>, n: Seq<char>, i: int)
    requires
        0 <= i < m.len(),
        m[i].0 == n,
    ensures
        exists|k: int| 0 <= k < m.len() && m[k].0 == n && forall|j: int| 0 <= j < k ==> m[j].0 != n,
    decreases i,
{
    if exists|j: int| 0 <= j < i && m[j].0 == n {
        let j = choose|j: int| 0 <= j < i && m[j].0 == n;
        lemma_first_binding(m, n, j);
    } else {
        assert(0 <= i < m.len() && m[i].0 == n && forall|j: int| 0 <= j < i ==> m[j].0 != n);
    }
}

/// A binding makes the name read as the bound type.
proof fn lemma_bind_reads(m: Seq<(Seq<char>, SpecType)>, n: Seq<char>, t: SpecType)
    ensures
        first_type(bind(m, n, t), n) == Some(t),
{
    if exists|i: int| 0 <= i < m.len() && m[i].0 == n {
        let i = choose|i: int| 0 <= i < m.len() && m[i].0 == n;
        lemma_first_binding(m, n, i);
        let k = choose|k: int| 0 <= k < m.len() && m[k].0 == n && forall|j: int| 0 <= j < k ==> m[j].0 != n;
        let b = bind(m, n, t);
        assert forall|j: int| 0 <= j < k implies b[j].0 != n by {
            assert(b[j] == m[j]);
        }
        lemma_first_type_at(b, n, k);
    } else {
        let b = m.push((n, t));
        assert forall|j: int| 0 <= j < m.len() implies b[j].0 != n by {
            assert(b[j] == m[j]);
        }
        lemma_first_type_at(b, n, m.len() as int);
    }
}

/// An undeclared-type declaration whose value is a boolean (a literal, a
/// comparison, `and` or `or`) is given the type `Bool`, and the name then
/// reads as `Bool`.
pub proof fn law_boolean_declaration(st: InferState, name: Seq<char>, value: SpecExpr, sensitive: bool)
    requires
        boolean_valued(value),
    ensures
        infer_stmt_spec(st, SpecStmt::VarDecl { name, ty: None, value, sensitive }).1 == (SpecStmt::VarDecl {
            name,
            ty: Some(SpecType::Bool),
            value,
            sensitive,
        }),
        first_type(infer_stmt_spec(st, SpecStmt::VarDecl { name, ty: None, value, sensitive }).0.0, name) == Some(SpecType::Bool),
{
    assert(expr_type(st.0, st.1, value) == SpecType::Bool);
    lemma_bind_reads(st.0, name, SpecType::Bool);
}

proof fn lemma_stmts_pointwise(st: InferState, ss: Seq<SpecStmt>)
    ensures
        infer_stmts_spec(st, ss).1.len() == ss.len(),
        forall|i: int| 0 <= i < ss.len() ==> #[trigger] infer_stmts_spec(st, ss).1[i] == infer_stmt_spec(infer_stmts_spec(st, ss.take(i)).0, ss[i]).1,
    decreases ss.len(),
{
    if ss.len() > 0 {
        lemma_stmts_pointwise(st, ss.drop_last());
        let (st1, prev) = infer_stmts_spec(st, ss.drop_last());
        let r = infer_stmts_spec(st, ss).1;
        assert(r == prev.push(infer_stmt_spec(st1, ss.last()).1));
        assert forall|i: int| 0 <= i < ss.len() implies #[trigger] infer_stmts_spec(st, ss).1[i] == infer_stmt_spec(infer_stmts_spec(st, ss.take(i)).0, ss[i]).1 by {
            if i < ss.len() - 1 {
                assert(ss.drop_last()[i] == ss[i]);
                assert(ss.drop_last().take(i) =~= ss.take(i));
                assert(r[i] == prev[i]);
                assert(prev[i] == infer_stmt_spec(infer_stmts_spec(st, ss.drop_last().take(i)).0, ss.drop_last()[i]).1);
            } else {
                assert(ss.take(i) =~= ss.drop_last());
                assert(r[i] == infer_stmt_spec(st1, ss[i]).1);
            }
        }
    }
}

/// Inference of a program gives every top-level declaration without a
/// type whose value is a boolean the type `Bool`.
pub proof fn law_boolean_declarations_in_program(ss: Seq<SpecStmt>, i: int, name: Seq<char>, value: SpecExpr, sensitive: bool)
    requires
        0 <= i < ss.len(),
        ss[i] == (SpecStmt::VarDecl { name, ty: None, value, sensitive }),
        boolean_valued(value),
    ensures
        infer_program_spec(ss).len() == ss.len(),
        infer_program_spec(ss)[i] == (SpecStmt::VarDecl { name, ty: Some(SpecType::Bool), value, sensitive }),
{
    let st0 = (Seq::<(Seq<char>, SpecType)>::empty(), declared_rets(Seq::empty(), ss));
    lemma_stmts_pointwise(st0, ss);
    let w = infer_stmts_spec(st0, ss.take(i)).0;
    assert(infer_stmts_spec(st0, ss).1[i] == infer_stmt_spec(w, ss[i]).1);
    law_boolean_declaration(w, name, value, sensitive);
}

/// An undeclared-type declaration of a literal takes the literal's type:
/// an integer gives `Int`, a float `Float`, a string `String` and `null`
/// `Ptr`; the name then reads as that type.
pub proof fn law_literal_declaration(st: InferState, name: Seq<char>, value: SpecExpr, sensitive: bool)
    ensures
        value is Integer ==> infer_stmt_spec(st, SpecStmt::VarDecl { name, ty: None, value, sensitive }).1
            == (SpecStmt::VarDecl { name, ty: Some(SpecType::Int), value, sensitive }),
        value is Float ==> infer_stmt_spec(st, SpecStmt::VarDecl { name, ty: None, value, sensitive }).1
            == (SpecStmt::VarDecl { name, ty: Some(SpecType::Float), value, sensitive }),
        value is StringLiteral ==> infer_stmt_spec(st, SpecStmt::VarDecl { name, ty: None, value, sensitive }).1
            == (SpecStmt::VarDecl { name, ty: Some(SpecType::String), value, sensitive }),
        value is Null ==> infer_stmt_spec(st, SpecStmt::VarDecl { name, ty: None, value, sensitive }).1
            == (SpecStmt::VarDecl { name, ty: Some(SpecType::Ptr), value, sensitive }),
        first_type(infer_stmt_spec(st, SpecStmt::VarDecl { name, ty: None, value, sensitive }).0.0, name)
            == Some(expr_type(st.0, st.1, value)),
{
    lemma_bind_reads(st.0, name, expr_type(st.0, st.1, value));
}

} // verus!
