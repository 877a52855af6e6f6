//! The built-in test framework: `test "name" { ... }` blocks become tasks
//! that announce themselves, and a main sequence that calls them all.
use vstd::prelude::*;
use crate::ast::{
    Type, Expr, Stmt, Block, Program, SpecStmt, SpecType, SpecExpr, stmts_view, lemma_stmts_view,
    copy_stmt, copy_stmts, copy_opt_expr,
};
use crate::text::{push_char, concat3, u64_to_decimal, decimal};

verus! {

/// The statements that are not tests, in order.
pub open spec fn non_tests(ss: Seq<SpecStmt>) -> Seq<SpecStmt>
    decreases ss.len(),
{
    if ss.len() == 0 {
        Seq::empty()
    } else if ss.last() is TestDecl {
        non_tests(ss.drop_last())
    } else {
        non_tests(ss.drop_last()).push(ss.last())
    }
}

/// How many tests there are.
pub open spec fn test_count(ss: Seq<SpecStmt>) -> nat
    decreases ss.len(),
{
    if ss.len() == 0 {
        0
    } else if ss.last() is TestDecl {
        test_count(ss.drop_last()) + 1
    } else {
        test_count(ss.drop_last())
    }
}

/// The name of the task a test becomes: `__test_` and the test's name
/// with spaces made underscores and double quotes dropped.
pub open spec fn test_task_name(name: Seq<char>) -> Seq<char> {
    "__test_"@ + sanitize(name)
}

pub open spec fn sanitize(s: Seq<char>) -> Seq<char>
    decreases s.len(),
{
    if s.len() == 0 {
        s
    } else {
        let rest = sanitize(s.drop_last());
        if s.last() == ' ' {
            rest.push('_')
        } else if s.last() == '"' {
            rest
        } else {
            rest.push(s.last())
        }
    }
}

/// A statement that prints `text`.
pub open spec fn print_spec(text: Seq<char>) -> SpecStmt {
    SpecStmt::PrintFmt { format: text, args: Seq::empty() }
}

/// The task that a test named `name` with body `body` becomes.
pub open spec fn test_task(name: Seq<char>, body: crate::ast::SpecBlock) -> SpecStmt {
    SpecStmt::TaskDecl {
        name: test_task_name(name),
        type_params: Seq::empty(),
        constraints: Seq::empty(),
        params: Seq::empty(),
        return_type: SpecType::Void,
        body: crate::ast::SpecBlock {
            statements: seq![print_spec("  running: "@ + name + "\n"@)] + body.statements
                + seq![print_spec("  PASS: "@ + name + "\n"@)],
            tail_expr: body.tail_expr,
        },
        is_inline: false,
        is_async: false,
    }
}

/// The tasks of the tests, in order.
pub open spec fn test_tasks_spec(ss: Seq<SpecStmt>) -> Seq<SpecStmt>
    decreases ss.len(),
{
    if ss.len() == 0 {
        Seq::empty()
    } else {
        match ss.last() {
            SpecStmt::TestDecl { name, body } => test_tasks_spec(ss.drop_last()).push(test_task(name, body)),
            _ => test_tasks_spec(ss.drop_last()),
        }
    }
}

/// The names of the tests' tasks, in order.
pub open spec fn test_names_spec(ss: Seq<SpecStmt>) -> Seq<Seq<char>>
    decreases ss.len(),
{
    if ss.len() == 0 {
        Seq::empty()
    } else {
        match ss.last() {
            SpecStmt::TestDecl { name, .. } => test_names_spec(ss.drop_last()).push(test_task_name(name)),
            _ => test_names_spec(ss.drop_last()),
        }
    }
}

/// A call of the task named `n`, without arguments.
pub open spec fn call_spec(n: Seq<char>) -> SpecStmt {
    SpecStmt::ExprStmt(SpecExpr::Call { func: Box::new(SpecExpr::Identifier(n)), args: Seq::empty(), named: Seq::empty() })
}

/// The heading, one call of each test task, and the closing line.
pub open spec fn runner_spec(names: Seq<Seq<char>>) -> Seq<SpecStmt> {
    seq![print_spec("Sovereign Tests — "@ + decimal(names.len()) + " test(s)\n"@)]
        + names.map_values(|n: Seq<char>| call_spec(n))
        + seq![print_spec("All tests passed.\n"@)]
}

proof fn lemma_stmts_view_append(a: Seq<Stmt>, b: Seq<Stmt>)
    ensures
        stmts_view(a + b) == stmts_view(a) + stmts_view(b),
    decreases b.len(),
{
    if b.len() == 0 {
        assert(a + b =~= a);
        assert(stmts_view(a) + stmts_view(b) =~= stmts_view(a));
    } else {
        lemma_stmts_view_append(a, b.drop_last());
        assert((a + b).drop_last() =~= a + b.drop_last());
        assert((a + b).last() == b.last());
        assert(stmts_view(a) + stmts_view(b) =~= (stmts_view(a) + stmts_view(b.drop_last())).push(crate::ast::stmt_view(b.last())));
    }
}

fn sanitize_name(name: &str) -> (r: String)
    ensures
        r@ == sanitize(name@),
{
    let cs = crate::text::chars_of(name);
    let mut out = String::new();
    let mut i: usize = 0;
    while i < cs.len()
        invariant
            i <= cs@.len(),
            cs@ == name@,
            out@ == sanitize(name@.take(i as int)),
        decreases cs.len() - i,
    {
        proof {
            assert(name@.take(i + 1).drop_last() =~= name@.take(i as int));
        }
        if cs[i] == ' ' {
            push_char(&mut out, '_');
        } else if cs[i] != '"' {
            push_char(&mut out, cs[i]);
        }
        i = i + 1;
    }
    assert(name@.take(name@.len() as int) =~= name@);
    out
}

fn print_line(format: String) -> (r: Stmt)
    ensures
        r@ == print_spec(format@),
{
    let args: Vec<Expr> = Vec::new();
    proof {
        assert(crate::ast::exprs_view(args@) =~= Seq::<SpecExpr>::empty());
    }
    Stmt::PrintFmt { format, args }
}

/// The statements that are not tests, copied in order.
fn keep_non_tests(stmts: &Vec<Stmt>) -> (r: Vec<Stmt>)
    ensures
        stmts_view(r@) == non_tests(stmts_view(stmts@)),
{
    let mut out: Vec<Stmt> = Vec::new();
    let mut i: usize = 0;
    proof {
        lemma_stmts_view(stmts@);
    }
    while i < stmts.len()
        invariant
            i <= stmts@.len(),
            stmts_view(stmts@).len() == stmts@.len(),
            forall|j: int| 0 <= j < stmts@.len() ==> #[trigger] stmts_view(stmts@)[j] == stmts@[j]@,
            stmts_view(out@) == non_tests(stmts_view(stmts@).take(i as int)),
        decreases stmts.len() - i,
    {
        proof {
            let t = stmts_view(stmts@).take(i + 1);
            assert(t.drop_last() =~= stmts_view(stmts@).take(i as int));
            assert(t.last() == stmts@[i as int]@);
        }
        match &stmts[i] {
            Stmt::TestDecl { .. } => {},
            other => {
                let c = copy_stmt(other);
                proof {
                    crate::ast::lemma_stmts_view_push(out@, c);
                }
                out.push(c);
            },
        }
        i = i + 1;
    }
    proof {
        assert(stmts_view(stmts@).take(stmts@.len() as int) =~= stmts_view(stmts@));
    }
    out
}

fn test_name_of(name: &String) -> (r: String)
    ensures
        r@ == test_task_name(name@),
{
    let san = sanitize_name(name.as_str());
    crate::text::concat2("__test_", san.as_str())
}

/// The task a test becomes.
fn test_task_of(name: &String, body: &Block) -> (r: Stmt)
    ensures
        r@ == test_task(name@, body@),
{
    let fn_name = test_name_of(name);
    let ghost run_line = print_spec("  running: "@ + name@ + "\n"@);
    let mut body_stmts: Vec<Stmt> = Vec::new();
    let first = print_line(concat3("  running: ", name.as_str(), "\n"));
    proof {
        crate::ast::lemma_stmts_view_push(body_stmts@, first);
    }
    body_stmts.push(first);
    let mut k: usize = 0;
    proof {
        assert(body.statements@.take(0) =~= Seq::<Stmt>::empty());
        assert(stmts_view(body_stmts@) =~= seq![run_line] + stmts_view(body.statements@.take(0)));
    }
    while k < body.statements.len()
        invariant
            k <= body.statements@.len(),
            stmts_view(body_stmts@) == seq![run_line] + stmts_view(body.statements@.take(k as int)),
        decreases body.statements.len() - k,
    {
        let c = copy_stmt(&body.statements[k]);
        proof {
            crate::ast::lemma_stmts_view_push(body_stmts@, c);
            crate::ast::lemma_stmts_view_push(body.statements@.take(k as int), body.statements@[k as int]);
            assert(body.statements@.take(k as int).push(body.statements@[k as int]) =~= body.statements@.take(k + 1));
            assert((seq![run_line] + stmts_view(body.statements@.take(k as int))).push(c@)
                =~= seq![run_line] + stmts_view(body.statements@.take(k + 1)));
        }
        body_stmts.push(c);
        k = k + 1;
    }
    let pass = print_line(concat3("  PASS: ", name.as_str(), "\n"));
    proof {
        crate::ast::lemma_stmts_view_push(body_stmts@, pass);
        assert(body.statements@.take(body.statements@.len() as int) =~= body.statements@);
    }
    body_stmts.push(pass);
    proof {
        assert(stmts_view(body_stmts@) =~= seq![run_line] + stmts_view(body.statements@)
            + seq![print_spec("  PASS: "@ + name@ + "\n"@)]);
    }
    let tail = copy_opt_expr(&body.tail_expr);
    let ghost sv = stmts_view(body_stmts@);
    let blk = Block { statements: body_stmts, tail_expr: tail };
    proof {
        assert(blk@ == crate::ast::SpecBlock { statements: sv, tail_expr: body@.tail_expr });
    }
    let tp: Vec<String> = Vec::new();
    let cs: Vec<(String, Vec<String>)> = Vec::new();
    let ps: Vec<(String, Type)> = Vec::new();
    proof {
        assert(crate::ast::strs_view(tp@) =~= Seq::<Seq<char>>::empty());
        assert(crate::ast::constraints_view(cs@) =~= Seq::<(Seq<char>, Seq<Seq<char>>)>::empty());
        assert(crate::ast::typed_names_view(ps@) =~= Seq::<(Seq<char>, SpecType)>::empty());
    }
    Stmt::TaskDecl {
        name: fn_name,
        type_params: tp,
        constraints: cs,
        params: ps,
        return_type: Type::Void,
        body: blk,
        is_inline: false,
        is_async: false,
    }
}

/// One task per test, and the tasks' names.
fn test_tasks(stmts: &Vec<Stmt>) -> (r: (Vec<Stmt>, Vec<String>))
    ensures
        r.0@.len() == test_count(stmts_view(stmts@)),
        r.1@.len() == r.0@.len(),
        stmts_view(r.0@) == test_tasks_spec(stmts_view(stmts@)),
        crate::ast::strs_view(r.1@) == test_names_spec(stmts_view(stmts@)),
{
    let mut out: Vec<Stmt> = Vec::new();
    let mut names: Vec<String> = Vec::new();
    let mut i: usize = 0;
    proof {
        lemma_stmts_view(stmts@);
    }
    while i < stmts.len()
        invariant
            i <= stmts@.len(),
            stmts_view(stmts@).len() == stmts@.len(),
            forall|j: int| 0 <= j < stmts@.len() ==> #[trigger] stmts_view(stmts@)[j] == stmts@[j]@,
            out@.len() == test_count(stmts_view(stmts@).take(i as int)),
            names@.len() == out@.len(),
            stmts_view(out@) == test_tasks_spec(stmts_view(stmts@).take(i as int)),
            crate::ast::strs_view(names@) == test_names_spec(stmts_view(stmts@).take(i as int)),
        decreases stmts.len() - i,
    {
        proof {
            let t = stmts_view(stmts@).take(i + 1);
            assert(t.drop_last() =~= stmts_view(stmts@).take(i as int));
            assert(t.last() == stmts@[i as int]@);
        }
        match &stmts[i] {
            Stmt::TestDecl { name, body } => {
                let task = test_task_of(name, body);
                let fn_name = test_name_of(name);
                proof {
                    crate::ast::lemma_stmts_view_push(out@, task);
                }
                let ghost nb = names@;
                out.push(task);
                names.push(fn_name);
                proof {
                    assert(crate::ast::strs_view(names@) =~= crate::ast::strs_view(nb).push(test_task_name(name@)));
                }
            },
            _ => {},
        }
        i = i + 1;
    }
    proof {
        assert(stmts_view(stmts@).take(stmts@.len() as int) =~= stmts_view(stmts@));
    }
    (out, names)
}

/// The heading, one call of each test task, and the closing line.
fn runner(names: &Vec<String>) -> (r: Vec<Stmt>)
    ensures
        r@.len() == names@.len() + 2,
        stmts_view(r@) == runner_spec(crate::ast::strs_view(names@)),
{
    let ghost nv = crate::ast::strs_view(names@);
    let ghost head = print_spec("Sovereign Tests — "@ + decimal(nv.len()) + " test(s)\n"@);
    let mut out: Vec<Stmt> = Vec::new();
    let count = u64_to_decimal(names.len() as u64);
    let first = print_line(concat3("Sovereign Tests — ", count.as_str(), " test(s)\n"));
    proof {
        crate::ast::lemma_stmts_view_push(out@, first);
        assert(nv.len() == names@.len());
    }
    out.push(first);
    let mut i: usize = 0;
    proof {
        assert(stmts_view(out@) =~= seq![head] + nv.take(0).map_values(|n: Seq<char>| call_spec(n)));
    }
    while i < names.len()
        invariant
            i <= names@.len(),
            nv == crate::ast::strs_view(names@),
            out@.len() == 1 + i,
            stmts_view(out@) == seq![head] + nv.take(i as int).map_values(|n: Seq<char>| call_spec(n)),
        decreases names.len() - i,
    {
        let args: Vec<Expr> = Vec::new();
        let named: Vec<(String, Expr)> = Vec::new();
        let n = names[i].clone();
        let ghost nview = n@;
        proof {
            assert(crate::ast::exprs_view(args@) =~= Seq::<SpecExpr>::empty());
            assert(crate::ast::named_view(named@) =~= Seq::<(Seq<char>, SpecExpr)>::empty());
        }
        let callee = Expr::Identifier(n);
        assert(callee@ == SpecExpr::Identifier(nview));
        let e = Expr::Call { func: Box::new(callee), args, named };
        assert(e@ == SpecExpr::Call { func: Box::new(SpecExpr::Identifier(nview)), args: Seq::empty(), named: Seq::empty() });
        let call = Stmt::ExprStmt(e);
        proof {
            assert(nview == names@[i as int]@);
            assert(call@ == call_spec(names@[i as int]@));
            crate::ast::lemma_stmts_view_push(out@, call);
            assert(nv[i as int] == names@[i as int]@);
            assert(nv.take(i + 1).map_values(|n: Seq<char>| call_spec(n))
                =~= nv.take(i as int).map_values(|n: Seq<char>| call_spec(n)).push(call_spec(nv[i as int])));
        }
        out.push(call);
        i = i + 1;
    }
    let last = print_line(String::from_str("All tests passed.\n"));
    proof {
        crate::ast::lemma_stmts_view_push(out@, last);
        assert(nv.take(names@.len() as int) =~= nv);
    }
    out.push(last);
    out
}


fn append_stmts(out: &mut Vec<Stmt>, more: Vec<Stmt>)
    ensures
        final(out)@ == old(out)@ + more@,
{
    let mut more = more;
    let mut rest: Vec<Stmt> = Vec::new();
    let ghost m = more@;
    let mut i: usize = 0;
    let n = more.len();
    proof {
        assert(out@ + m.take(0) =~= out@);
        assert(m.skip(0) =~= m);
    }
    while i < n
        invariant
            n == m.len(),
            i <= n,
            more@.len() == n - i,
            more@ == m.skip(i as int),
            out@ == old(out)@ + m.take(i as int),
        decreases n - i,
    {
        let x = more.remove(0);
        proof {
            assert(x == m[i as int]);
            assert(more@ =~= m.skip(i + 1));
            assert(old(out)@ + m.take(i + 1) =~= (old(out)@ + m.take(i as int)).push(x));
        }
        out.push(x);
        i = i + 1;
    }
    proof {
        assert(m.take(n as int) =~= m);
    }
}

/// The program that runs the tests of `program`: its other statements in
/// order; then, for each test, a task named by `test_task_name` whose body
/// is the test's, announced when it starts and when it passes; then a
/// heading, one call of each test task, and a closing line.
pub fn build_test_program(program: &Program) -> (r: Program)
    ensures
        r@.statements.len() == non_tests(program@.statements).len() + 2 * test_count(program@.statements) + 2,
        r@.statements.take(non_tests(program@.statements).len() as int) == non_tests(program@.statements),
        r@.statements == non_tests(program@.statements) + test_tasks_spec(program@.statements)
            + runner_spec(test_names_spec(program@.statements)),
{
    let mut out = keep_non_tests(&program.statements);
    let ghost kept = out@;
    let (tasks, names) = test_tasks(&program.statements);
    append_stmts(&mut out, tasks);
    let ghost tv = tasks@;
    let run = runner(&names);
    let ghost rv = run@;
    append_stmts(&mut out, run);
    proof {
        lemma_stmts_view_append(kept, tv);
        lemma_stmts_view_append(kept + tv, rv);
        assert(out@ == kept + tv + rv);
        lemma_stmts_view(out@);
        lemma_stmts_view(kept);
        assert(stmts_view(out@).take(kept.len() as int) =~= stmts_view(kept)) by {
            assert forall|j: int| 0 <= j < kept.len() implies stmts_view(out@)[j] == stmts_view(kept)[j] by {
                assert(out@[j] == kept[j]);
            }
        }
    }
    Program { statements: out }
}

} // verus!
