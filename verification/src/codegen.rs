//! Native code generation: a program is lowered to an LLVM module, which
//! LLVM (through inkwell) compiles to an object file for a target.
//!
//! Values are 32-bit integers; booleans are 0 and 1. Variables live in
//! stack slots, one `alloca` each, made at the function's entry. Integer
//! `+`, `-`, `*` carry `nsw` (no signed wrap) outside `override` blocks.
//! `purge` overwrites a variable's slot with a volatile store of zero, so
//! that the wipe is not optimised away. Top-level statements form `main`;
//! each top-level task becomes a function (a task named `main` is emitted
//! as `sov_main`). What the lowering does not cover is refused with an
//! error rather than compiled wrongly.
use vstd::prelude::*;
use crate::ast::{
    Expr, Stmt, Block, Program, Type, BinOp, UnaryOp, SpecExpr, SpecStmt, SpecBlock, SpecType, SpecLoopKind, LoopKind,
    exprs_view, stmts_view, lemma_exprs_view, lemma_stmts_view, lemma_exprs_view_push, lemma_stmts_view_push, typed_names_view,
};
use crate::text::{decimal, u64_to_decimal, str_eq};
use crate::cross_compile::CrossTarget;
use inkwell::context::Context;
use inkwell::module::Module;
use inkwell::memory_buffer::MemoryBuffer;
use inkwell::targets::{TargetMachine, FileType};
use inkwell::OptimizationLevel;

verus! {

/// The bound on registers, slots and labels of one function.
pub const LIMIT: usize = 0xffff_ffff;

// ── The model of the lowering ───────────────────────────────────────────

/// The lowering's state inside one function.
#[verifier::ext_equal]
pub struct LowerView {
    /// The lines of the function body emitted so far.
    pub code: Seq<Seq<char>>,
    /// Stack slots made so far (parameters first).
    pub slots: nat,
    /// Registers used so far.
    pub regs: nat,
    /// Labels used so far.
    pub labels: nat,
    /// Variables in scope and their slots; the latest entry for a name counts.
    pub scopes: Seq<(Seq<char>, nat)>,
    /// The enclosing loops, innermost last: (continue label, break label).
    pub loops: Seq<(nat, nat)>,
    /// Whether the current block already ended (return, break, continue).
    pub done: bool,
    /// Whether arithmetic carries `nsw` (outside `override`).
    pub safe: bool,
    /// Whether the function returns nothing.
    pub ret_void: bool,
    /// The string constants of the module, by number.
    pub strings: Seq<Seq<char>>,
    /// The tasks that can be called: name, parameter count, returns nothing.
    pub tasks: Seq<(Seq<char>, nat, bool)>,
}

pub open spec fn fits(st: LowerView) -> bool {
    st.regs < LIMIT && st.labels + 4 < LIMIT && st.slots < LIMIT
}

pub open spec fn emit(st: LowerView, lines: Seq<Seq<char>>) -> LowerView {
    LowerView { code: st.code + lines, ..st }
}

pub open spec fn reg(n: nat) -> Seq<char> {
    "%r"@ + decimal(n)
}

pub open spec fn slot_name(k: nat) -> Seq<char> {
    "%v"@ + decimal(k)
}

pub open spec fn label_name(k: nat) -> Seq<char> {
    "L"@ + decimal(k)
}

/// A 32-bit constant in decimal.
pub open spec fn int_text(v: i32) -> Seq<char> {
    if v < 0 {
        "-"@ + decimal((0 - v) as nat)
    } else {
        decimal(v as nat)
    }
}

/// The slot of the latest binding of `x` among the first `n` entries.
pub open spec fn slot_of(sc: Seq<(Seq<char>, nat)>, x: Seq<char>, n: int) -> Option<nat>
    decreases n,
{
    if n <= 0 || n > sc.len() {
        None
    } else if sc[n - 1].0 == x {
        Some(sc[n - 1].1)
    } else {
        slot_of(sc, x, n - 1)
    }
}

/// The first task named `f` from position `i` on.
pub open spec fn task_from(ts: Seq<(Seq<char>, nat, bool)>, f: Seq<char>, i: int) -> Option<(nat, bool)>
    decreases ts.len() - i,
{
    if i < 0 || i >= ts.len() {
        None
    } else if ts[i].0 == f {
        Some((ts[i].1, ts[i].2))
    } else {
        task_from(ts, f, i + 1)
    }
}

/// The function name a task is emitted under.
pub open spec fn llvm_name(f: Seq<char>) -> Seq<char> {
    if f == "main"@ {
        "sov_main"@
    } else {
        f
    }
}

/// The instruction of an arithmetic or bitwise operator.
pub open spec fn arith_instr(op: BinOp, safe: bool) -> Option<Seq<char>> {
    match op {
        BinOp::Add => Some(if safe { "add nsw"@ } else { "add"@ }),
        BinOp::Sub => Some(if safe { "sub nsw"@ } else { "sub"@ }),
        BinOp::Mul => Some(if safe { "mul nsw"@ } else { "mul"@ }),
        BinOp::Div => Some("sdiv"@),
        BinOp::Mod => Some("srem"@),
        BinOp::BitAnd => Some("and"@),
        BinOp::BitOr => Some("or"@),
        BinOp::BitXor => Some("xor"@),
        BinOp::Shl => Some("shl"@),
        BinOp::Shr => Some("ashr"@),
        _ => None,
    }
}

/// The predicate of a comparison.
pub open spec fn pred_of(op: BinOp) -> Option<Seq<char>> {
    match op {
        BinOp::Eq => Some("eq"@),
        BinOp::Neq => Some("ne"@),
        BinOp::Lt => Some("slt"@),
        BinOp::Gt => Some("sgt"@),
        BinOp::Le => Some("sle"@),
        BinOp::Ge => Some("sge"@),
        _ => None,
    }
}

/// The lines computing `a op b` into register `r`.
pub open spec fn bin_lines(op: BinOp, safe: bool, r: nat, a: Seq<char>, b: Seq<char>) -> Seq<Seq<char>> {
    let d = decimal(r);
    match arith_instr(op, safe) {
        Some(ins) => seq!["  "@ + reg(r) + " = "@ + ins + " i32 "@ + a + ", "@ + b],
        None => match pred_of(op) {
            Some(p) => seq!["  %c"@ + d + " = icmp "@ + p + " i32 "@ + a + ", "@ + b, "  "@ + reg(r) + " = zext i1 %c"@ + d + " to i32"@],
            None => seq![
                "  %a"@ + d + " = icmp ne i32 "@ + a + ", 0"@,
                "  %b"@ + d + " = icmp ne i32 "@ + b + ", 0"@,
                "  %c"@ + d + " = "@ + (if op == BinOp::And { "and"@ } else { "or"@ }) + " i1 %a"@ + d + ", %b"@ + d,
                "  "@ + reg(r) + " = zext i1 %c"@ + d + " to i32"@,
            ],
        },
    }
}

/// The lines computing a unary operation on `a` into register `r`.
pub open spec fn unary_lines(op: UnaryOp, safe: bool, r: nat, a: Seq<char>) -> Seq<Seq<char>> {
    let d = decimal(r);
    match op {
        UnaryOp::Neg => seq!["  "@ + reg(r) + " = "@ + (if safe { "sub nsw"@ } else { "sub"@ }) + " i32 0, "@ + a],
        UnaryOp::Not => seq!["  %c"@ + d + " = icmp eq i32 "@ + a + ", 0"@, "  "@ + reg(r) + " = zext i1 %c"@ + d + " to i32"@],
        UnaryOp::BitNot => seq!["  "@ + reg(r) + " = xor i32 "@ + a + ", -1"@],
    }
}

/// The argument list of a call.
pub open spec fn args_text(ops: Seq<Seq<char>>) -> Seq<char>
    decreases ops.len(),
{
    if ops.len() == 0 {
        Seq::empty()
    } else if ops.len() == 1 {
        "i32 "@ + ops[0]
    } else {
        args_text(ops.drop_last()) + ", i32 "@ + ops.last()
    }
}

/// Lowering an expression: the state after it and the operand that holds
/// its value; `None` where the lowering does not cover it.
pub open spec fn lower_expr(st: LowerView, e: SpecExpr) -> Option<(LowerView, Seq<char>)>
    decreases e,
{
    if !fits(st) {
        None
    } else {
        match e {
            SpecExpr::Integer(n) => Some((st, int_text(n as i32))),
            SpecExpr::Boolean(b) => Some((st, if b { "1"@ } else { "0"@ })),
            SpecExpr::Identifier(x) => match slot_of(st.scopes, x, st.scopes.len() as int) {
                Some(k) => Some((
                    LowerView { regs: st.regs + 1, ..emit(st, seq!["  "@ + reg(st.regs) + " = load i32, i32* "@ + slot_name(k)]) },
                    reg(st.regs),
                )),
                None => None,
            },
            SpecExpr::BinaryOp { left, op, right } => match lower_expr(st, *left) {
                Some((s1, a)) => match lower_expr(s1, *right) {
                    Some((s2, b)) => if fits(s2) {
                        Some((LowerView { regs: s2.regs + 1, ..emit(s2, bin_lines(op, s2.safe, s2.regs, a, b)) }, reg(s2.regs)))
                    } else {
                        None
                    },
                    None => None,
                },
                None => None,
            },
            SpecExpr::UnaryOp { op, operand } => match lower_expr(st, *operand) {
                Some((s1, a)) => if fits(s1) {
                    Some((LowerView { regs: s1.regs + 1, ..emit(s1, unary_lines(op, s1.safe, s1.regs, a)) }, reg(s1.regs)))
                } else {
                    None
                },
                None => None,
            },
            SpecExpr::Call { func, args, named } => match *func {
                SpecExpr::Identifier(f) => match task_from(st.tasks, f, 0) {
                    Some((n, void)) => if named.len() == 0 && args.len() == n {
                        match lower_args(st, args) {
                            Some((s1, ops)) => if !fits(s1) {
                                None
                            } else if void {
                                Some((emit(s1, seq!["  call void @"@ + llvm_name(f) + "("@ + args_text(ops) + ")"@]), "0"@))
                            } else {
                                Some((
                                    LowerView {
                                        regs: s1.regs + 1,
                                        ..emit(s1, seq!["  "@ + reg(s1.regs) + " = call i32 @"@ + llvm_name(f) + "("@ + args_text(ops) + ")"@])
                                    },
                                    reg(s1.regs),
                                ))
                            },
                            None => None,
                        }
                    } else {
                        None
                    },
                    None => None,
                },
                _ => None,
            },
            _ => None,
        }
    }
}

/// Lowering the arguments of a call, left to right.
pub open spec fn lower_args(st: LowerView, es: Seq<SpecExpr>) -> Option<(LowerView, Seq<Seq<char>>)>
    decreases es,
{
    if es.len() == 0 {
        Some((st, Seq::empty()))
    } else {
        match lower_args(st, es.drop_last()) {
            Some((s1, ops)) => match lower_expr(s1, es.last()) {
                Some((s2, a)) => Some((s2, ops.push(a))),
                None => None,
            },
            None => None,
        }
    }
}

/// The call of `printf` that prints an integer operand.
pub open spec fn print_int_line(a: Seq<char>) -> Seq<char> {
    "  call i32 (i8*, ...) @printf(i8* getelementptr inbounds ([4 x i8], [4 x i8]* @.fmt.d, i32 0, i32 0), i32 "@ + a + ")"@
}

/// The call of `printf` that prints string constant `k` of `len` bytes.
pub open spec fn print_str_line(k: nat, len: nat) -> Seq<char> {
    "  call i32 (i8*, ...) @printf(i8* getelementptr inbounds ([4 x i8], [4 x i8]* @.fmt.s, i32 0, i32 0), i8* getelementptr inbounds (["@
        + decimal(len + 1) + " x i8], ["@ + decimal(len + 1) + " x i8]* @.str."@ + decimal(k) + ", i32 0, i32 0))"@
}

/// Text that a string constant can hold as it is: printable ASCII other
/// than `"` and `\`.
pub open spec fn plain_text(s: Seq<char>) -> bool {
    forall|i: int| 0 <= i < s.len() ==> ' ' <= #[trigger] s[i] && s[i] <= '~' && s[i] != '"' && s[i] != '\\'
}

/// The state after a block in a scope of its own: the block's variables
/// go out of scope.
pub open spec fn close_scope(before: LowerView, after: LowerView) -> LowerView {
    LowerView { scopes: before.scopes, ..after }
}

/// Lowering a statement; `None` where the lowering does not cover it.
pub open spec fn lower_stmt(st: LowerView, s: SpecStmt) -> Option<LowerView>
    decreases s, 1int,
{
    if st.done {
        Some(st)
    } else if !fits(st) {
        None
    } else {
        match s {
            SpecStmt::VarDecl { name, value, .. } => lower_decl(st, name, value),
            SpecStmt::ConstDecl { name, value } => lower_decl(st, name, value),
            SpecStmt::Assign { name, value } => lower_assign(st, name, value),
            SpecStmt::CompoundAssign { name, op, value } => lower_compound(st, name, op, value),
            SpecStmt::Print(e) => lower_print(st, e),
            SpecStmt::ExprStmt(e) => match lower_expr(st, e) {
                Some((s1, _)) => Some(s1),
                None => None,
            },
            SpecStmt::Check { .. } => lower_check(st, s),
            SpecStmt::Loop { kind, body } => lower_loop(st, kind, body),
            SpecStmt::Break => lower_jump(st, s),
            SpecStmt::Continue => lower_jump(st, s),
            SpecStmt::Return(_) => lower_jump(st, s),
            SpecStmt::Override { .. } => lower_override(st, s),
            SpecStmt::Purge { variable } => lower_purge(st, variable),
            SpecStmt::TypeAlias { .. } => Some(st),
            SpecStmt::TestDecl { .. } => Some(st),
            _ => None,
        }
    }
}

/// `name op= value`: `+`, `-`, `*` and `/` combine with the current value;
/// another operator stores the value itself.
#[verifier::opaque]
pub open spec fn lower_compound(st: LowerView, name: Seq<char>, op: BinOp, value: SpecExpr) -> Option<LowerView> {
    match slot_of(st.scopes, name, st.scopes.len() as int) {
        Some(k) => {
            let cur = reg(st.regs);
            let s0 = LowerView { regs: st.regs + 1, ..emit(st, seq!["  "@ + cur + " = load i32, i32* "@ + slot_name(k)]) };
            match lower_expr(s0, value) {
                Some((s1, v)) => if !fits(s1) {
                    None
                } else if op == BinOp::Add || op == BinOp::Sub || op == BinOp::Mul || op == BinOp::Div {
                    let s2 = LowerView { regs: s1.regs + 1, ..emit(s1, bin_lines(op, s1.safe, s1.regs, cur, v)) };
                    Some(emit(s2, seq!["  store i32 "@ + reg(s1.regs) + ", i32* "@ + slot_name(k)]))
                } else {
                    Some(emit(s1, seq!["  store i32 "@ + v + ", i32* "@ + slot_name(k)]))
                },
                None => None,
            }
        },
        None => None,
}
}

/// `print`: a string constant with `%s`, anything else as an integer.
#[verifier::opaque]
pub open spec fn lower_print(st: LowerView, e: SpecExpr) -> Option<LowerView> {
    match e {
        SpecExpr::StringLiteral(t) => if plain_text(t) && t.len() < LIMIT && st.strings.len() < LIMIT {
            Some(LowerView { strings: st.strings.push(t), ..emit(st, seq![print_str_line(st.strings.len(), t.len())]) })
        } else {
            None
        },
        _ => match lower_expr(st, e) {
            Some((s1, v)) => Some(emit(s1, seq![print_int_line(v)])),
            None => None,
        },
}
}

/// `check` with its branches: labels `a` (then), `a + 1` (else), `a + 2`
/// (after).
pub open spec fn lower_check(st: LowerView, s: SpecStmt) -> Option<LowerView>
    decreases s, 0int,
{
    match s {
        SpecStmt::Check { condition, then_block, else_block } => match lower_expr(st, condition) {
            Some((s1, c)) => if !fits(s1) {
                None
            } else {
                let a = s1.labels;
                let r = s1.regs;
                let s2 = LowerView {
                    regs: r + 1,
                    labels: a + 3,
                    ..emit(s1, seq![
                        "  %c"@ + decimal(r) + " = icmp ne i32 "@ + c + ", 0"@,
                        "  br i1 %c"@ + decimal(r) + ", label %"@ + label_name(a) + ", label %"@ + label_name(a + 1),
                        label_name(a) + ":"@,
                    ])
                };
                match lower_block(s2, then_block) {
                    Some(s3) => {
                        let s4 = close_scope(s2, s3);
                        let s5 = emit(
                            LowerView { done: false, ..s4 },
                            (if s4.done { Seq::empty() } else { seq!["  br label %"@ + label_name(a + 2)] }).push(label_name(a + 1) + ":"@),
                        );
                        let s6 = match else_block {
                            Some(eb) => match lower_block(s5, eb) {
                                Some(s) => Some(close_scope(s5, s)),
                                None => None,
                            },
                            None => Some(s5),
                        };
                        match s6 {
                            Some(s7) => Some(emit(
                                LowerView { done: false, ..s7 },
                                (if s7.done { Seq::empty() } else { seq!["  br label %"@ + label_name(a + 2)] }).push(label_name(a + 2) + ":"@),
                            )),
                            None => None,
                        }
                    },
                    None => None,
                }
            },
            None => None,
        },
        _ => None,
    }
}

/// `name = value`.
#[verifier::opaque]
pub open spec fn lower_assign(st: LowerView, name: Seq<char>, value: SpecExpr) -> Option<LowerView> {
    match slot_of(st.scopes, name, st.scopes.len() as int) {
        Some(k) => match lower_expr(st, value) {
            Some((s1, v)) => Some(emit(s1, seq!["  store i32 "@ + v + ", i32* "@ + slot_name(k)])),
            None => None,
        },
        None => None,
    }
}

/// `purge name`: a volatile store of zero into the variable's slot.
#[verifier::opaque]
pub open spec fn lower_purge(st: LowerView, name: Seq<char>) -> Option<LowerView> {
    match slot_of(st.scopes, name, st.scopes.len() as int) {
        Some(k) => Some(emit(st, seq!["  store volatile i32 0, i32* "@ + slot_name(k)])),
        None => None,
    }
}

/// `break`, `continue` and `return`: the block ends.
#[verifier::opaque]
pub open spec fn lower_jump(st: LowerView, s: SpecStmt) -> Option<LowerView> {
    match s {
        SpecStmt::Break => if st.loops.len() > 0 {
            Some(LowerView { done: true, ..emit(st, seq!["  br label %"@ + label_name(st.loops.last().1)]) })
        } else {
            None
        },
        SpecStmt::Continue => if st.loops.len() > 0 {
            Some(LowerView { done: true, ..emit(st, seq!["  br label %"@ + label_name(st.loops.last().0)]) })
        } else {
            None
        },
        SpecStmt::Return(v) => match v {
            Some(e) => if st.ret_void {
                None
            } else {
                match lower_expr(st, e) {
                    Some((s1, a)) => Some(LowerView { done: true, ..emit(s1, seq!["  ret i32 "@ + a]) }),
                    None => None,
                }
            },
            None => Some(LowerView { done: true, ..emit(st, seq![if st.ret_void { "  ret void"@ } else { "  ret i32 0"@ }]) }),
        },
        _ => None,
    }
}

/// `override`: the block without `nsw`, in a scope of its own.
pub open spec fn lower_override(st: LowerView, s: SpecStmt) -> Option<LowerView>
    decreases s, 0int,
{
    match s {
        SpecStmt::Override { body } => match lower_block(LowerView { safe: false, ..st }, body) {
            Some(s1) => Some(LowerView { safe: st.safe, ..close_scope(st, s1) }),
            None => None,
        },
        _ => None,
    }
}

/// A declaration: the value into a new slot, bound to the name.
#[verifier::opaque]
pub open spec fn lower_decl(st: LowerView, name: Seq<char>, value: SpecExpr) -> Option<LowerView> {
    match lower_expr(st, value) {
        Some((s1, v)) => if fits(s1) {
            let k = s1.slots;
            Some(LowerView {
                slots: k + 1,
                scopes: s1.scopes.push((name, k)),
                ..emit(s1, seq!["  store i32 "@ + v + ", i32* "@ + slot_name(k)])
            })
        } else {
            None
        },
        None => None,
    }
}

/// A loop: `n times`, `v from a to b` (inclusive), a condition, or
/// endless; other kinds are not covered.
pub open spec fn lower_loop(st: LowerView, kind: SpecLoopKind, body: SpecBlock) -> Option<LowerView>
    decreases body, 4int,
{
    match kind {
        SpecLoopKind::Times(c) => match lower_expr(st, c) {
            Some((s1, v)) => if fits(s1) { lower_counted(s1, None, "0"@, v, "ult"@, body) } else { None },
            None => None,
        },
        SpecLoopKind::FromTo { var, from, to } => match lower_expr(st, from) {
            Some((s1, a)) => match lower_expr(s1, to) {
                Some((s2, b)) => if fits(s2) { lower_counted(s2, Some(var), a, b, "sle"@, body) } else { None },
                None => None,
            },
            None => None,
        },
        _ => lower_cond_loop(st, kind, body),
    }
}

/// A counted loop over a new slot: it starts at `init` and goes on while
/// `pred` holds of it and `limit`, one more after each round. Labels: `h`
/// the test, `h + 1` the body, `h + 2` the exit, `h + 3` the step (the
/// target of `continue`).
pub open spec fn lower_counted(st: LowerView, var: Option<Seq<char>>, init: Seq<char>, limit: Seq<char>, pred: Seq<char>, body: SpecBlock) -> Option<LowerView>
    decreases body, 3int,
{
    let k = st.slots;
    let h = st.labels;
    let r = st.regs;
    let s0 = LowerView {
        slots: k + 1,
        labels: h + 4,
        regs: r + 1,
        ..emit(st, seq![
            "  store i32 "@ + init + ", i32* "@ + slot_name(k),
            "  br label %"@ + label_name(h),
            label_name(h) + ":"@,
            "  "@ + reg(r) + " = load i32, i32* "@ + slot_name(k),
            "  %c"@ + decimal(r) + " = icmp "@ + pred + " i32 "@ + reg(r) + ", "@ + limit,
            "  br i1 %c"@ + decimal(r) + ", label %"@ + label_name(h + 1) + ", label %"@ + label_name(h + 2),
            label_name(h + 1) + ":"@,
        ])
    };
    let inner = LowerView {
        loops: s0.loops.push((h + 3, h + 2)),
        scopes: match var {
            Some(v) => s0.scopes.push((v, k)),
            None => s0.scopes,
        },
        ..s0
    };
    match lower_block(inner, body) {
        Some(s3) => {
            let s4 = LowerView { loops: s0.loops, scopes: s0.scopes, ..s3 };
            if fits(s4) {
                let r2 = s4.regs;
                let d = decimal(r2);
                Some(LowerView {
                    done: false,
                    regs: r2 + 1,
                    ..emit(s4, (if s4.done { Seq::empty() } else { seq!["  br label %"@ + label_name(h + 3)] }) + seq![
                        label_name(h + 3) + ":"@,
                        "  "@ + reg(r2) + " = load i32, i32* "@ + slot_name(k),
                        "  %n"@ + d + " = add i32 "@ + reg(r2) + ", 1"@,
                        "  store i32 %n"@ + d + ", i32* "@ + slot_name(k),
                        "  br label %"@ + label_name(h),
                        label_name(h + 2) + ":"@,
                    ])
                })
            } else {
                None
            }
        },
        None => None,
    }
}

/// A loop on a condition, or an endless one.
pub open spec fn lower_cond_loop(st: LowerView, kind: SpecLoopKind, body: SpecBlock) -> Option<LowerView>
    decreases body, 3int,
{
    let h = st.labels;
    let s0 = LowerView { labels: h + 3, ..emit(st, seq!["  br label %"@ + label_name(h), label_name(h) + ":"@]) };
    let s1 = match kind {
        SpecLoopKind::While(c) => match lower_expr(s0, c) {
            Some((s, v)) => if fits(s) {
                Some(LowerView {
                    regs: s.regs + 1,
                    ..emit(s, seq![
                        "  %c"@ + decimal(s.regs) + " = icmp ne i32 "@ + v + ", 0"@,
                        "  br i1 %c"@ + decimal(s.regs) + ", label %"@ + label_name(h + 1) + ", label %"@ + label_name(h + 2),
                        label_name(h + 1) + ":"@,
                    ])
                })
            } else {
                None
            },
            None => None,
        },
        SpecLoopKind::Infinite => Some(emit(s0, seq!["  br label %"@ + label_name(h + 1), label_name(h + 1) + ":"@])),
        _ => None,
    };
    match s1 {
        Some(s2) => match lower_block(LowerView { loops: s2.loops.push((h, h + 2)), ..s2 }, body) {
            Some(s3) => {
                let s4 = LowerView { loops: s2.loops, ..close_scope(s2, s3) };
                Some(emit(
                    LowerView { done: false, ..s4 },
                    (if s4.done { Seq::empty() } else { seq!["  br label %"@ + label_name(h)] }).push(label_name(h + 2) + ":"@),
                ))
            },
            None => None,
        },
        None => None,
    }
}

/// A block: its statements in order, then its tail expression.
pub open spec fn lower_block(st: LowerView, b: SpecBlock) -> Option<LowerView>
    decreases b, 2int,
{
    match lower_stmts(st, b.statements) {
        Some(s1) => match b.tail_expr {
            Some(e) => if s1.done {
                Some(s1)
            } else {
                match lower_expr(s1, e) {
                    Some((s2, _)) => Some(s2),
                    None => None,
                }
            },
            None => Some(s1),
        },
        None => None,
    }
}

pub open spec fn lower_stmts(st: LowerView, ss: Seq<SpecStmt>) -> Option<LowerView>
    decreases ss,
{
    if ss.len() == 0 {
        Some(st)
    } else {
        match lower_stmts(st, ss.drop_last()) {
            Some(s1) => lower_stmt(s1, ss.last()),
            None => None,
        }
    }
}

// ── Functions and the module ────────────────────────────────────────────

pub open spec fn int_like(t: SpecType) -> bool {
    t == SpecType::Int || t == SpecType::Bool
}

/// A top-level statement the lowering accepts as it stands: a task must be
/// neither generic nor asynchronous, take `int` or `bool` parameters and
/// give `int`, `bool` or nothing.
pub open spec fn task_ok(s: SpecStmt) -> bool {
    match s {
        SpecStmt::TaskDecl { type_params, params, return_type, is_async, .. } => {
            &&& type_params.len() == 0
            &&& !is_async
            &&& params.len() < LIMIT
            &&& forall|i: int| 0 <= i < params.len() ==> int_like(#[trigger] params[i].1)
            &&& (int_like(return_type) || return_type == SpecType::Void)
        },
        SpecStmt::ExternDecl { params, return_type, variadic, .. } => {
            &&& !variadic
            &&& params.len() < LIMIT
            &&& forall|i: int| 0 <= i < params.len() ==> int_like(#[trigger] params[i])
            &&& (int_like(return_type) || return_type == SpecType::Void)
        },
        _ => true,
    }
}

/// The callable tasks of a program, in order.
pub open spec fn program_tasks(ss: Seq<SpecStmt>) -> Seq<(Seq<char>, nat, bool)>
    decreases ss.len(),
{
    if ss.len() == 0 {
        Seq::empty()
    } else {
        let t = program_tasks(ss.drop_last());
        match ss.last() {
            SpecStmt::TaskDecl { name, params, return_type, .. } => t.push((name, params.len(), return_type == SpecType::Void)),
            SpecStmt::ExternDecl { name, params, return_type, .. } => t.push((name, params.len(), return_type == SpecType::Void)),
            _ => t,
        }
    }
}

/// Declarations that produce no code in `main`.
pub open spec fn skipped_at_top(s: SpecStmt) -> bool {
    s is TaskDecl || s is ExternDecl || s is StructDecl || s is EnumDecl || s is TestDecl
}

/// `main`'s statements in order.
pub open spec fn lower_top(st: LowerView, ss: Seq<SpecStmt>) -> Option<LowerView>
    decreases ss.len(),
{
    if ss.len() == 0 {
        Some(st)
    } else {
        match lower_top(st, ss.drop_last()) {
            Some(s1) => if skipped_at_top(ss.last()) { Some(s1) } else { lower_stmt(s1, ss.last()) },
            None => None,
        }
    }
}

/// The end of a function body that did not return: the default return.
pub open spec fn finish(st: LowerView) -> LowerView {
    if st.done {
        st
    } else {
        emit(st, seq![if st.ret_void { "  ret void"@ } else { "  ret i32 0"@ }])
    }
}

/// The state at the start of a function with `n` parameters.
pub open spec fn fresh(tasks: Seq<(Seq<char>, nat, bool)>, strings: Seq<Seq<char>>, scopes: Seq<(Seq<char>, nat)>, n: nat, ret_void: bool) -> LowerView {
    LowerView {
        code: Seq::empty(),
        slots: n,
        regs: 0,
        labels: 0,
        scopes,
        loops: Seq::empty(),
        done: false,
        safe: true,
        ret_void,
        strings,
        tasks,
    }
}

/// Parameter `k` lives in slot `k`.
pub open spec fn param_scopes(ps: Seq<(Seq<char>, SpecType)>) -> Seq<(Seq<char>, nat)> {
    Seq::new(ps.len(), |i: int| (ps[i].0, i as nat))
}

pub open spec fn allocas(n: nat) -> Seq<Seq<char>>
    decreases n,
{
    if n == 0 {
        Seq::empty()
    } else {
        allocas((n - 1) as nat).push("  "@ + slot_name((n - 1) as nat) + " = alloca i32"@)
    }
}

pub open spec fn param_stores(n: nat) -> Seq<Seq<char>>
    decreases n,
{
    if n == 0 {
        Seq::empty()
    } else {
        param_stores((n - 1) as nat).push("  store i32 %p"@ + decimal((n - 1) as nat) + ", i32* "@ + slot_name((n - 1) as nat))
    }
}

pub open spec fn params_text(n: nat) -> Seq<char>
    decreases n,
{
    if n == 0 {
        Seq::empty()
    } else if n == 1 {
        "i32 %p"@ + decimal(0)
    } else {
        params_text((n - 1) as nat) + ", i32 %p"@ + decimal((n - 1) as nat)
    }
}

/// A whole function: header, entry block with the slots and the stored
/// parameters, then the body.
pub open spec fn function_lines(name: Seq<char>, n: nat, ret_void: bool, st: LowerView) -> Seq<Seq<char>> {
    seq!["define "@ + (if ret_void { "void"@ } else { "i32"@ }) + " @"@ + name + "("@ + params_text(n) + ") {"@, "entry:"@]
        + allocas(st.slots) + param_stores(n) + st.code + seq!["}"@]
}

/// The functions of the program's tasks, in order, and the string
/// constants after them.
/// The function of a task declaration and the string constants after it;
/// other statements give no function.
#[verifier::opaque]
pub open spec fn task_fn(tasks: Seq<(Seq<char>, nat, bool)>, strs: Seq<Seq<char>>, s: SpecStmt) -> Option<(Seq<Seq<char>>, Seq<Seq<char>>)> {
    match s {
        SpecStmt::TaskDecl { name, params, return_type, body, .. } => {
            let void = return_type == SpecType::Void;
            match lower_block(fresh(tasks, strs, param_scopes(params), params.len(), void), body) {
                Some(f) => {
                    let g = finish(f);
                    Some((function_lines(llvm_name(name), params.len(), void, g), g.strings))
                },
                None => None,
            }
        },
        _ => Some((Seq::empty(), strs)),
    }
}

/// The functions of the program's tasks, in order, and the string
/// constants after them.
pub open spec fn lower_tasks(tasks: Seq<(Seq<char>, nat, bool)>, strings: Seq<Seq<char>>, ss: Seq<SpecStmt>) -> Option<(Seq<Seq<char>>, Seq<Seq<char>>)>
    decreases ss.len(),
{
    if ss.len() == 0 {
        Some((Seq::empty(), strings))
    } else {
        match lower_tasks(tasks, strings, ss.drop_last()) {
            Some((ls, strs)) => match task_fn(tasks, strs, ss.last()) {
                Some((fl, s2)) => Some((ls + fl, s2)),
                None => None,
            },
            None => None,
        }
    }
}

pub open spec fn header_lines(triple: Seq<char>) -> Seq<Seq<char>> {
    seq![
        "target triple = \""@ + triple + "\""@,
        "declare i32 @printf(i8*, ...)"@,
        "@.fmt.d = private unnamed_addr constant [4 x i8] c\"%d\\0A\\00\""@,
        "@.fmt.s = private unnamed_addr constant [4 x i8] c\"%s\\0A\\00\""@,
    ]
}

/// `i32, i32, ...`: the parameter types of an external function.
pub open spec fn types_text(n: nat) -> Seq<char>
    decreases n,
{
    if n == 0 {
        Seq::empty()
    } else if n == 1 {
        "i32"@
    } else {
        types_text((n - 1) as nat) + ", i32"@
    }
}

/// A declaration of each external function, in order.
pub open spec fn extern_lines(ss: Seq<SpecStmt>) -> Seq<Seq<char>>
    decreases ss.len(),
{
    if ss.len() == 0 {
        Seq::empty()
    } else {
        let prev = extern_lines(ss.drop_last());
        match ss.last() {
            SpecStmt::ExternDecl { name, params, return_type, .. } => prev.push(
                "declare "@ + (if return_type == SpecType::Void { "void"@ } else { "i32"@ }) + " @"@ + llvm_name(name) + "("@
                    + types_text(params.len()) + ")"@,
            ),
            _ => prev,
        }
    }
}

pub open spec fn string_lines(strs: Seq<Seq<char>>) -> Seq<Seq<char>>
    decreases strs.len(),
{
    if strs.len() == 0 {
        Seq::empty()
    } else {
        let k = (strs.len() - 1) as nat;
        string_lines(strs.drop_last()).push(
            "@.str."@ + decimal(k) + " = private unnamed_addr constant ["@ + decimal(strs.last().len() + 1) + " x i8] c\""@
                + strs.last() + "\\00\""@,
        )
    }
}

pub open spec fn short_strings(strs: Seq<Seq<char>>) -> bool {
    forall|k: int| 0 <= k < strs.len() ==> #[trigger] strs[k].len() < LIMIT
}

/// The LLVM module of a program for a target triple: `main` from the
/// top-level statements, then one function per task.
pub open spec fn all_tasks_ok(ss: Seq<SpecStmt>) -> bool {
    forall|i: int| 0 <= i < ss.len() ==> task_ok(#[trigger] ss[i])
}

/// `main` (finished), the task functions and the string constants.
#[verifier::opaque]
pub open spec fn built(ss: Seq<SpecStmt>) -> Option<(LowerView, Seq<Seq<char>>, Seq<Seq<char>>)> {
    let tasks = program_tasks(ss);
    match lower_top(fresh(tasks, Seq::empty(), Seq::empty(), 0, false), ss) {
        Some(m) => {
            let mf = finish(m);
            match lower_tasks(tasks, mf.strings, ss) {
                Some((tl, strs)) => Some((mf, tl, strs)),
                None => None,
            }
        },
        None => None,
    }
}

pub open spec fn module_lines(ss: Seq<SpecStmt>, triple: Seq<char>) -> Option<Seq<Seq<char>>> {
    if !all_tasks_ok(ss) {
        None
    } else {
        match built(ss) {
            Some((mf, tl, strs)) => if short_strings(strs) {
                Some(header_lines(triple) + extern_lines(ss) + string_lines(strs) + function_lines("main"@, 0, false, mf) + tl)
            } else {
                None
            },
            None => None,
        }
    }
}

/// Lines joined into a text, each ended by a line break.
pub open spec fn joined(ls: Seq<Seq<char>>) -> Seq<char>
    decreases ls.len(),
{
    if ls.len() == 0 {
        Seq::empty()
    } else {
        joined(ls.drop_last()) + ls.last() + "\n"@
    }
}

// ── Lowering ────────────────────────────────────────────────────────────

/// Why a program could not be compiled.
#[derive(Debug)]
pub enum CodegenError {
    /// A construct the lowering does not cover.
    Unsupported,
    /// LLVM did not accept the module or could not make the object code.
    Llvm(String),
}

fn dec(n: usize) -> (r: String)
    ensures
        r@ == decimal(n as nat),
{
    u64_to_decimal(n as u64)
}

fn cat(a: String, b: &str) -> (r: String)
    ensures
        r@ == a@ + b@,
{
    let mut a = a;
    a.append(b);
    a
}

fn reg_text(n: usize) -> (r: String)
    ensures
        r@ == reg(n as nat),
{
    cat(String::from_str("%r"), dec(n).as_str())
}

fn slot_text(n: usize) -> (r: String)
    ensures
        r@ == slot_name(n as nat),
{
    cat(String::from_str("%v"), dec(n).as_str())
}

fn label_text(n: usize) -> (r: String)
    ensures
        r@ == label_name(n as nat),
{
    cat(String::from_str("L"), dec(n).as_str())
}

fn int_text_exec(v: i32) -> (r: String)
    ensures
        r@ == int_text(v),
{
    if v < 0 {
        let m: i64 = 0i64 - (v as i64);
        cat(String::from_str("-"), u64_to_decimal(m as u64).as_str())
    } else {
        u64_to_decimal(v as u64)
    }
}

fn arith_instr_exec(op: BinOp, safe: bool) -> (r: Option<&'static str>)
    ensures
        match r {
            Some(t) => arith_instr(op, safe) == Some(t@),
            None => arith_instr(op, safe) is None,
        },
{
    match op {
        BinOp::Add => Some(if safe { "add nsw" } else { "add" }),
        BinOp::Sub => Some(if safe { "sub nsw" } else { "sub" }),
        BinOp::Mul => Some(if safe { "mul nsw" } else { "mul" }),
        BinOp::Div => Some("sdiv"),
        BinOp::Mod => Some("srem"),
        BinOp::BitAnd => Some("and"),
        BinOp::BitOr => Some("or"),
        BinOp::BitXor => Some("xor"),
        BinOp::Shl => Some("shl"),
        BinOp::Shr => Some("ashr"),
        _ => None,
    }
}

fn pred_of_exec(op: BinOp) -> (r: Option<&'static str>)
    ensures
        match r {
            Some(t) => pred_of(op) == Some(t@),
            None => pred_of(op) is None,
        },
{
    match op {
        BinOp::Eq => Some("eq"),
        BinOp::Neq => Some("ne"),
        BinOp::Lt => Some("slt"),
        BinOp::Gt => Some("sgt"),
        BinOp::Le => Some("sle"),
        BinOp::Ge => Some("sge"),
        _ => None,
    }
}

pub open spec fn lines_view(v: Seq<String>) -> Seq<Seq<char>> {
    v.map_values(|s: String| s@)
}

fn bin_lines_exec(op: BinOp, safe: bool, r: usize, a: &str, b: &str) -> (out: Vec<String>)
    ensures
        lines_view(out@) == bin_lines(op, safe, r as nat, a@, b@),
{
    let d = dec(r);
    let mut out: Vec<String> = Vec::new();
    match arith_instr_exec(op, safe) {
        Some(ins) => {
            let l = cat(cat(cat(cat(cat(cat(String::from_str("  "), reg_text(r).as_str()), " = "), ins), " i32 "), a), ", ");
            out.push(cat(l, b));
        },
        None => match pred_of_exec(op) {
            Some(p) => {
                let l = cat(cat(cat(cat(cat(cat(cat(String::from_str("  %c"), d.as_str()), " = icmp "), p), " i32 "), a), ", "), b);
                out.push(l);
                let l2 = cat(cat(cat(cat(String::from_str("  "), reg_text(r).as_str()), " = zext i1 %c"), d.as_str()), " to i32");
                out.push(l2);
            },
            None => {
                out.push(cat(cat(cat(cat(String::from_str("  %a"), d.as_str()), " = icmp ne i32 "), a), ", 0"));
                out.push(cat(cat(cat(cat(String::from_str("  %b"), d.as_str()), " = icmp ne i32 "), b), ", 0"));
                let w = if op == BinOp::And { "and" } else { "or" };
                out.push(cat(cat(cat(cat(cat(cat(cat(String::from_str("  %c"), d.as_str()), " = "), w), " i1 %a"), d.as_str()), ", %b"), d.as_str()));
                out.push(cat(cat(cat(cat(String::from_str("  "), reg_text(r).as_str()), " = zext i1 %c"), d.as_str()), " to i32"));
            },
        },
    }
    proof {
        assert(lines_view(out@) =~= bin_lines(op, safe, r as nat, a@, b@));
    }
    out
}

/// The lowering of one function in progress (see `LowerView`).
pub struct Lowerer {
    code: Vec<String>,
    slots: usize,
    regs: usize,
    labels: usize,
    scopes: Vec<(String, usize)>,
    loops: Vec<(usize, usize)>,
    done: bool,
    safe: bool,
    ret_void: bool,
    strings: Vec<String>,
    tasks: Vec<(String, usize, bool)>,
}

pub open spec fn scopes_view(v: Seq<(String, usize)>) -> Seq<(Seq<char>, nat)> {
    v.map_values(|p: (String, usize)| (p.0@, p.1 as nat))
}

pub open spec fn loops_view(v: Seq<(usize, usize)>) -> Seq<(nat, nat)> {
    v.map_values(|p: (usize, usize)| (p.0 as nat, p.1 as nat))
}

pub open spec fn tasks_view(v: Seq<(String, usize, bool)>) -> Seq<(Seq<char>, nat, bool)> {
    v.map_values(|p: (String, usize, bool)| (p.0@, p.1 as nat, p.2))
}

impl View for Lowerer {
    type V = LowerView;

    closed spec fn view(&self) -> LowerView {
        LowerView {
            code: lines_view(self.code@),
            slots: self.slots as nat,
            regs: self.regs as nat,
            labels: self.labels as nat,
            scopes: scopes_view(self.scopes@),
            loops: loops_view(self.loops@),
            done: self.done,
            safe: self.safe,
            ret_void: self.ret_void,
            strings: lines_view(self.strings@),
            tasks: tasks_view(self.tasks@),
        }
    }
}

impl Lowerer {
    fn push_line(&mut self, l: String)
        ensures
            final(self)@ == emit(old(self)@, seq![l@]),
    {
        let ghost lv = l@;
        self.code.push(l);
        proof {
            assert(lines_view(self.code@) =~= lines_view(old(self).code@) + seq![lv]);
            assert(self@ =~= emit(old(self)@, seq![lv]));
        }
    }

    fn push_lines(&mut self, v: Vec<String>)
        ensures
            final(self)@ == emit(old(self)@, lines_view(v@)),
    {
        let mut i: usize = 0;
        while i < v.len()
            invariant
                i <= v@.len(),
                self@ == emit(old(self)@, lines_view(v@.take(i as int))),
            decreases v.len() - i,
        {
            let ghost before = self@;
            self.push_line(v[i].clone());
            proof {
                assert(lines_view(v@.take(i + 1)) =~= lines_view(v@.take(i as int)) + seq![v@[i as int]@]);
                assert(self@ =~= emit(old(self)@, lines_view(v@.take(i + 1))));
            }
            i = i + 1;
        }
        proof {
            assert(v@.take(v@.len() as int) =~= v@);
        }
    }

    fn fits_now(&self) -> (r: bool)
        ensures
            r == fits(self@),
    {
        self.regs < LIMIT && self.labels < LIMIT - 4 && self.slots < LIMIT
    }

    fn lookup_slot(&self, x: &str) -> (r: Option<usize>)
        ensures
            match r {
                Some(k) => slot_of(self@.scopes, x@, self@.scopes.len() as int) == Some(k as nat),
                None => slot_of(self@.scopes, x@, self@.scopes.len() as int) is None,
            },
    {
        let ghost sc = self@.scopes;
        let mut n = self.scopes.len();
        while n > 0
            invariant
                n <= self.scopes@.len(),
                sc == scopes_view(self.scopes@),
                sc.len() == self.scopes@.len(),
                slot_of(sc, x@, sc.len() as int) == slot_of(sc, x@, n as int),
            decreases n,
        {
            if str_eq(self.scopes[n - 1].0.as_str(), x) {
                return Some(self.scopes[n - 1].1);
            }
            n = n - 1;
        }
        None
    }

    fn find_task(&self, f: &str) -> (r: Option<(usize, bool)>)
        ensures
            match r {
                Some(p) => task_from(self@.tasks, f@, 0) == Some((p.0 as nat, p.1)),
                None => task_from(self@.tasks, f@, 0) is None,
            },
    {
        let ghost ts = self@.tasks;
        let mut i: usize = 0;
        while i < self.tasks.len()
            invariant
                i <= self.tasks@.len(),
                ts == tasks_view(self.tasks@),
                ts.len() == self.tasks@.len(),
                task_from(ts, f@, 0) == task_from(ts, f@, i as int),
            decreases self.tasks.len() - i,
        {
            if str_eq(self.tasks[i].0.as_str(), f) {
                return Some((self.tasks[i].1, self.tasks[i].2));
            }
            i = i + 1;
        }
        None
    }

    /// Emits the lines into a new register; its name is returned.
    fn emit_into_reg(&mut self, lines: Vec<String>) -> (r: String)
        requires
            old(self).regs < LIMIT,
        ensures
            final(self)@ == (LowerView { regs: old(self)@.regs + 1, ..emit(old(self)@, lines_view(lines@)) }),
            r@ == reg(old(self)@.regs),
    {
        let r = self.regs;
        self.push_lines(lines);
        self.regs = r + 1;
        proof {
            assert(self@ =~= (LowerView { regs: old(self)@.regs + 1, ..emit(old(self)@, lines_view(lines@)) }));
        }
        reg_text(r)
    }

    fn lower_expr(&mut self, e: &Expr) -> (r: Result<String, CodegenError>)
        ensures
            match lower_expr(old(self)@, e@) {
                Some((s, v)) => r matches Ok(o) && o@ == v && final(self)@ == s,
                None => r is Err,
            },
        decreases e, 0int,
    {
        proof {
            reveal_with_fuel(crate::ast::expr_view, 2);
        }
        if !self.fits_now() {
            return Err(CodegenError::Unsupported);
        }
        match e {
            Expr::Integer(n) => Ok(int_text_exec(#[verifier::truncate] (*n as i32))),
            Expr::Boolean(b) => Ok(String::from_str(if *b { "1" } else { "0" })),
            Expr::Identifier(x) => match self.lookup_slot(x.as_str()) {
                Some(k) => {
                    let l = cat(cat(cat(String::from_str("  "), reg_text(self.regs).as_str()), " = load i32, i32* "), slot_text(k).as_str());
                    let mut v: Vec<String> = Vec::new();
                    v.push(l);
                    proof {
                        assert(lines_view(v@) =~= seq![v@[0]@]);
                    }
                    Ok(self.emit_into_reg(v))
                },
                None => Err(CodegenError::Unsupported),
            },
            Expr::BinaryOp { left, op, right } => {
                let a = self.lower_expr(left)?;
                let b = self.lower_expr(right)?;
                if !self.fits_now() {
                    return Err(CodegenError::Unsupported);
                }
                let lines = bin_lines_exec(*op, self.safe, self.regs, a.as_str(), b.as_str());
                Ok(self.emit_into_reg(lines))
            },
            Expr::UnaryOp { op, operand } => {
                let a = self.lower_expr(operand)?;
                if !self.fits_now() {
                    return Err(CodegenError::Unsupported);
                }
                let lines = unary_lines_exec(*op, self.safe, self.regs, a.as_str());
                Ok(self.emit_into_reg(lines))
            },
            Expr::Call { func, args, named } => match &**func {
                Expr::Identifier(f) => match self.find_task(f.as_str()) {
                    Some((n, void)) => {
                        proof {
                            reveal_with_fuel(crate::ast::expr_view, 2);
                            lemma_exprs_view(args@);
                            crate::ast::lemma_named_view(named@);
                        }
                        if !(named.len() == 0 && args.len() == n) {
                            return Err(CodegenError::Unsupported);
                        }
                        let ops = self.lower_args(args)?;
                        if !self.fits_now() {
                            return Err(CodegenError::Unsupported);
                        }
                        let at = args_text_exec(&ops);
                        if void {
                            let l = cat(cat(cat(cat(String::from_str("  call void @"), llvm_name_exec(f.as_str()).as_str()), "("), at.as_str()), ")");
                            self.push_line(l);
                            Ok(String::from_str("0"))
                        } else {
                            let l = cat(cat(cat(cat(cat(cat(String::from_str("  "), reg_text(self.regs).as_str()), " = call i32 @"), llvm_name_exec(f.as_str()).as_str()), "("), at.as_str()), ")");
                            let mut v: Vec<String> = Vec::new();
                            v.push(l);
                            proof {
                                assert(lines_view(v@) =~= seq![v@[0]@]);
                            }
                            Ok(self.emit_into_reg(v))
                        }
                    },
                    None => Err(CodegenError::Unsupported),
                },
                _ => {
                    proof {
                        reveal_with_fuel(crate::ast::expr_view, 2);
                    }
                    Err(CodegenError::Unsupported)
                },
            },
            _ => Err(CodegenError::Unsupported),
        }
    }

    fn lower_args(&mut self, es: &Vec<Expr>) -> (r: Result<Vec<String>, CodegenError>)
        ensures
            match lower_args(old(self)@, exprs_view(es@)) {
                Some((s, ops)) => r matches Ok(o) && lines_view(o@) == ops && final(self)@ == s,
                None => r is Err,
            },
        decreases es, 1int,
    {
        let mut ops: Vec<String> = Vec::new();
        let mut i: usize = 0;
        proof {
            assert(es@.take(0) =~= Seq::<Expr>::empty());
            assert(lines_view(ops@) =~= Seq::<Seq<char>>::empty());
        }
        while i < es.len()
            invariant
                i <= es@.len(),
                lower_args(old(self)@, exprs_view(es@.take(i as int))) == Some((self@, lines_view(ops@))),
            decreases es.len() - i,
        {
            proof {
                lemma_exprs_view_push(es@.take(i as int), es@[i as int]);
                assert(es@.take(i as int).push(es@[i as int]) =~= es@.take(i + 1));
                let sv = exprs_view(es@.take(i + 1));
                assert(sv.drop_last() =~= exprs_view(es@.take(i as int)));
                assert(sv.last() == es@[i as int]@);
            }
            let ghost ops0 = lines_view(ops@);
            match self.lower_expr(&es[i]) {
                Ok(a) => {
                    let ghost av = a@;
                    ops.push(a);
                    proof {
                        assert(lines_view(ops@) =~= ops0.push(av));
                    }
                },
                Err(err) => {
                    proof {
                        crate::ast::lemma_exprs_view(es@);
                        crate::ast::lemma_exprs_view(es@.take(i + 1));
                        assert(exprs_view(es@).take(i + 1) =~= exprs_view(es@.take(i + 1)));
                        lemma_args_none(old(self)@, exprs_view(es@), i as int + 1);
                    }
                    return Err(err);
                },
            }
            i = i + 1;
        }
        proof {
            assert(es@.take(es@.len() as int) =~= es@);
        }
        Ok(ops)
    }
}

proof fn lemma_args_none(st: LowerView, es: Seq<SpecExpr>, i: int)
    requires
        0 <= i <= es.len(),
        lower_args(st, es.take(i)) is None,
    ensures
        lower_args(st, es) is None,
    decreases es.len() - i,
{
    if es.len() > i {
        assert(es.drop_last().take(i) =~= es.take(i));
        lemma_args_none(st, es.drop_last(), i);
    } else {
        assert(es.take(i) =~= es);
    }
}

fn unary_lines_exec(op: UnaryOp, safe: bool, r: usize, a: &str) -> (out: Vec<String>)
    ensures
        lines_view(out@) == unary_lines(op, safe, r as nat, a@),
{
    let d = dec(r);
    let mut out: Vec<String> = Vec::new();
    match op {
        UnaryOp::Neg => {
            let ins = if safe { "sub nsw" } else { "sub" };
            out.push(cat(cat(cat(cat(cat(String::from_str("  "), reg_text(r).as_str()), " = "), ins), " i32 0, "), a));
        },
        UnaryOp::Not => {
            out.push(cat(cat(cat(cat(String::from_str("  %c"), d.as_str()), " = icmp eq i32 "), a), ", 0"));
            out.push(cat(cat(cat(cat(String::from_str("  "), reg_text(r).as_str()), " = zext i1 %c"), d.as_str()), " to i32"));
        },
        UnaryOp::BitNot => {
            out.push(cat(cat(cat(cat(String::from_str("  "), reg_text(r).as_str()), " = xor i32 "), a), ", -1"));
        },
    }
    proof {
        assert(lines_view(out@) =~= unary_lines(op, safe, r as nat, a@));
    }
    out
}

fn args_text_exec(ops: &Vec<String>) -> (r: String)
    ensures
        r@ == args_text(lines_view(ops@)),
{
    let mut out = String::new();
    let mut i: usize = 0;
    proof {
        assert(lines_view(ops@.take(0)) =~= Seq::<Seq<char>>::empty());
    }
    while i < ops.len()
        invariant
            i <= ops@.len(),
            out@ == args_text(lines_view(ops@.take(i as int))),
        decreases ops.len() - i,
    {
        proof {
            let t = lines_view(ops@.take(i + 1));
            assert(t.drop_last() =~= lines_view(ops@.take(i as int)));
            assert(t.last() == ops@[i as int]@);
            if i == 0 {
                assert(t.len() == 1);
            }
        }
        if i == 0 {
            out = cat(String::from_str("i32 "), ops[i].as_str());
        } else {
            out = cat(cat(out, ", i32 "), ops[i].as_str());
        }
        i = i + 1;
    }
    proof {
        assert(ops@.take(ops@.len() as int) =~= ops@);
    }
    out
}

fn llvm_name_exec(f: &str) -> (r: String)
    ensures
        r@ == llvm_name(f@),
{
    if str_eq(f, "main") {
        String::from_str("sov_main")
    } else {
        String::from_str(f)
    }
}

fn copy_scopes(v: &Vec<(String, usize)>) -> (r: Vec<(String, usize)>)
    ensures
        scopes_view(r@) == scopes_view(v@),
{
    let mut r: Vec<(String, usize)> = Vec::new();
    let mut i: usize = 0;
    while i < v.len()
        invariant
            i <= v@.len(),
            scopes_view(r@) == scopes_view(v@.take(i as int)),
        decreases v.len() - i,
    {
        let ghost before = r@;
        r.push((String::from_str(v[i].0.as_str()), v[i].1));
        proof {
            assert(v@.take(i + 1) =~= v@.take(i as int).push(v@[i as int]));
            assert(scopes_view(r@) =~= scopes_view(before).push((v@[i as int].0@, v@[i as int].1 as nat)));
            assert(scopes_view(v@.take(i + 1)) =~= scopes_view(v@.take(i as int)).push((v@[i as int].0@, v@[i as int].1 as nat)));
        }
        i = i + 1;
    }
    proof {
        assert(v@.take(v@.len() as int) =~= v@);
    }
    r
}

fn copy_loops(v: &Vec<(usize, usize)>) -> (r: Vec<(usize, usize)>)
    ensures
        loops_view(r@) == loops_view(v@),
{
    let mut r: Vec<(usize, usize)> = Vec::new();
    let mut i: usize = 0;
    while i < v.len()
        invariant
            i <= v@.len(),
            loops_view(r@) == loops_view(v@.take(i as int)),
        decreases v.len() - i,
    {
        let ghost before = r@;
        r.push(v[i]);
        proof {
            assert(v@.take(i + 1) =~= v@.take(i as int).push(v@[i as int]));
            assert(loops_view(r@) =~= loops_view(before).push((v@[i as int].0 as nat, v@[i as int].1 as nat)));
            assert(loops_view(v@.take(i + 1)) =~= loops_view(v@.take(i as int)).push((v@[i as int].0 as nat, v@[i as int].1 as nat)));
        }
        i = i + 1;
    }
    proof {
        assert(v@.take(v@.len() as int) =~= v@);
    }
    r
}

fn plain_text_exec(t: &str) -> (r: bool)
    ensures
        r == plain_text(t@),
{
    let cs = crate::text::chars_of(t);
    let mut i: usize = 0;
    while i < cs.len()
        invariant
            i <= cs@.len(),
            cs@ == t@,
            forall|j: int| 0 <= j < i ==> ' ' <= #[trigger] cs@[j] && cs@[j] <= '~' && cs@[j] != '"' && cs@[j] != '\\',
        decreases cs.len() - i,
    {
        let c = cs[i];
        if !(' ' <= c && c <= '~' && c != '"' && c != '\\') {
            return false;
        }
        i = i + 1;
    }
    true
}

fn print_int_exec(a: &str) -> (r: String)
    ensures
        r@ == print_int_line(a@),
{
    cat(cat(String::from_str("  call i32 (i8*, ...) @printf(i8* getelementptr inbounds ([4 x i8], [4 x i8]* @.fmt.d, i32 0, i32 0), i32 "), a), ")")
}

fn print_str_exec(k: usize, len: usize) -> (r: String)
    requires
        len < LIMIT,
    ensures
        r@ == print_str_line(k as nat, len as nat),
{
    let n = dec(len + 1);
    let l = cat(String::from_str("  call i32 (i8*, ...) @printf(i8* getelementptr inbounds ([4 x i8], [4 x i8]* @.fmt.s, i32 0, i32 0), i8* getelementptr inbounds (["), n.as_str());
    let l = cat(cat(cat(cat(cat(l, " x i8], ["), n.as_str()), " x i8]* @.str."), dec(k).as_str()), ", i32 0, i32 0))");
    l
}

fn br_text(k: usize) -> (r: String)
    ensures
        r@ == "  br label %"@ + label_name(k as nat),
{
    cat(String::from_str("  br label %"), label_text(k).as_str())
}

fn label_line(k: usize) -> (r: String)
    ensures
        r@ == label_name(k as nat) + ":"@,
{
    cat(label_text(k), ":")
}

impl Lowerer {
    /// Ends the current block with a branch to `to` unless it already
    /// ended, then opens block `open`.
    fn join(&mut self, to: usize, open: usize)
        ensures
            final(self)@ == emit(
                LowerView { done: false, ..old(self)@ },
                (if old(self)@.done { Seq::empty() } else { seq!["  br label %"@ + label_name(to as nat)] }).push(label_name(open as nat) + ":"@),
            ),
    {
        let was = self.done;
        self.done = false;
        let mut v: Vec<String> = Vec::new();
        if !was {
            v.push(br_text(to));
        }
        v.push(label_line(open));
        let ghost mid = self@;
        self.push_lines(v);
        proof {
            assert(lines_view(v@) =~= (if old(self)@.done { Seq::empty() } else { seq!["  br label %"@ + label_name(to as nat)] }).push(label_name(open as nat) + ":"@));
            assert(mid =~= LowerView { done: false, ..old(self)@ });
        }
    }

    fn lower_decl(&mut self, name: &String, value: &Expr) -> (r: Result<(), CodegenError>)
        ensures
            match lower_decl(old(self)@, name@, value@) {
                Some(s) => r is Ok && final(self)@ == s,
                None => r is Err,
            },
    {
        proof {
            reveal(lower_decl);
        }
        let v = self.lower_expr(value)?;
        if !self.fits_now() {
            return Err(CodegenError::Unsupported);
        }
        let k = self.slots;
        let l = cat(cat(cat(String::from_str("  store i32 "), v.as_str()), ", i32* "), slot_text(k).as_str());
        self.push_line(l);
        self.slots = k + 1;
        let ghost sc = self@.scopes;
        self.scopes.push((name.clone(), k));
        proof {
            assert(self@.scopes =~= sc.push((name@, k as nat)));
        }
        Ok(())
    }

    #[verifier::rlimit(100)]
    #[verifier::spinoff_prover]
    fn lower_stmt(&mut self, s: &Stmt) -> (r: Result<(), CodegenError>)
        ensures
            match lower_stmt(old(self)@, s@) {
                Some(st) => r is Ok && final(self)@ == st,
                None => r is Err,
            },
        decreases s, 2int,
    {
        if self.done {
            return Ok(());
        }
        if !self.fits_now() {
            return Err(CodegenError::Unsupported);
        }
        match s {
            Stmt::VarDecl { .. } => self.lower_plain(s),
            Stmt::ConstDecl { .. } => self.lower_plain(s),
            Stmt::Assign { .. } => self.lower_plain(s),
            Stmt::CompoundAssign { .. } => self.lower_plain(s),
            Stmt::Print(_) => self.lower_plain(s),
            Stmt::ExprStmt(_) => self.lower_plain(s),
            Stmt::Check { .. } => self.lower_nested(s),
            Stmt::Loop { .. } => self.lower_nested(s),
            Stmt::Override { .. } => self.lower_nested(s),
            _ => self.lower_rest(s),
        }
    }

    #[verifier::rlimit(100)]
    fn lower_plain(&mut self, s: &Stmt) -> (r: Result<(), CodegenError>)
        requires
            !old(self)@.done,
            fits(old(self)@),
            s is VarDecl || s is ConstDecl || s is Assign || s is CompoundAssign || s is Print || s is ExprStmt,
        ensures
            match lower_stmt(old(self)@, s@) {
                Some(st) => r is Ok && final(self)@ == st,
                None => r is Err,
            },
    {
        match s {
            Stmt::VarDecl { name, value, .. } => self.lower_decl(name, value),
            Stmt::ConstDecl { name, value } => self.lower_decl(name, value),
            Stmt::Assign { name, value } => self.lower_assign(name, value),
            Stmt::CompoundAssign { name, op, value } => self.lower_compound(name, *op, value),
            Stmt::Print(e) => self.lower_print(e),
            Stmt::ExprStmt(e) => {
                let _ = self.lower_expr(e)?;
                Ok(())
            },
            _ => Err(CodegenError::Unsupported),
        }
    }

    #[verifier::rlimit(100)]
    fn lower_nested(&mut self, s: &Stmt) -> (r: Result<(), CodegenError>)
        requires
            !old(self)@.done,
            fits(old(self)@),
            s is Check || s is Loop || s is Override,
        ensures
            match lower_stmt(old(self)@, s@) {
                Some(st) => r is Ok && final(self)@ == st,
                None => r is Err,
            },
        decreases s, 1int,
    {
        match s {
            Stmt::Check { .. } => self.lower_check(s),
            Stmt::Loop { kind, body } => self.lower_loop(kind, body),
            Stmt::Override { .. } => self.lower_override(s),
            _ => Err(CodegenError::Unsupported),
        }
    }

    #[verifier::rlimit(100)]
    #[verifier::spinoff_prover]
    fn lower_rest(&mut self, s: &Stmt) -> (r: Result<(), CodegenError>)
        requires
            !old(self)@.done,
            fits(old(self)@),
            !(s is VarDecl || s is ConstDecl || s is Assign || s is CompoundAssign || s is Print || s is ExprStmt),
            !(s is Check || s is Loop || s is Override),
        ensures
            match lower_stmt(old(self)@, s@) {
                Some(st) => r is Ok && final(self)@ == st,
                None => r is Err,
            },
    {
        match s {
            Stmt::Break => self.lower_jump(s),
            Stmt::Continue => self.lower_jump(s),
            Stmt::Return(_) => self.lower_jump(s),
            Stmt::Purge { variable } => self.lower_purge(variable),
            Stmt::TypeAlias { .. } => Ok(()),
            Stmt::TestDecl { .. } => Ok(()),
            _ => Err(CodegenError::Unsupported),
        }
    }

    #[verifier::rlimit(100)]
    #[verifier::spinoff_prover]
    fn lower_assign(&mut self, name: &String, value: &Expr) -> (r: Result<(), CodegenError>)
        ensures
            match lower_assign(old(self)@, name@, value@) {
                Some(st) => r is Ok && final(self)@ == st,
                None => r is Err,
            },
    {
        proof {
            reveal(lower_assign);
        }
        match self.lookup_slot(name.as_str()) {
            Some(k) => {
                let v = self.lower_expr(value)?;
                let l = cat(cat(cat(String::from_str("  store i32 "), v.as_str()), ", i32* "), slot_text(k).as_str());
                self.push_line(l);
                Ok(())
            },
            None => Err(CodegenError::Unsupported),
        }
    }

    fn lower_purge(&mut self, name: &String) -> (r: Result<(), CodegenError>)
        ensures
            match lower_purge(old(self)@, name@) {
                Some(st) => r is Ok && final(self)@ == st,
                None => r is Err,
            },
    {
        proof {
            reveal(lower_purge);
        }
        match self.lookup_slot(name.as_str()) {
            Some(k) => {
                self.push_line(cat(String::from_str("  store volatile i32 0, i32* "), slot_text(k).as_str()));
                Ok(())
            },
            None => Err(CodegenError::Unsupported),
        }
    }

    fn lower_jump(&mut self, s: &Stmt) -> (r: Result<(), CodegenError>)
        ensures
            match lower_jump(old(self)@, s@) {
                Some(st) => r is Ok && final(self)@ == st,
                None => r is Err,
            },
    {
        proof {
            reveal(lower_jump);
        }
        match s {
            Stmt::Break => {
                if self.loops.len() > 0 {
                    let t = self.loops[self.loops.len() - 1].1;
                    self.push_line(br_text(t));
                    self.done = true;
                    Ok(())
                } else {
                    Err(CodegenError::Unsupported)
                }
            },
            Stmt::Continue => {
                if self.loops.len() > 0 {
                    let t = self.loops[self.loops.len() - 1].0;
                    self.push_line(br_text(t));
                    self.done = true;
                    Ok(())
                } else {
                    Err(CodegenError::Unsupported)
                }
            },
            Stmt::Return(v) => match v {
                Some(e) => {
                    if self.ret_void {
                        return Err(CodegenError::Unsupported);
                    }
                    let a = self.lower_expr(e)?;
                    self.push_line(cat(String::from_str("  ret i32 "), a.as_str()));
                    self.done = true;
                    Ok(())
                },
                None => {
                    let l = String::from_str(if self.ret_void { "  ret void" } else { "  ret i32 0" });
                    self.push_line(l);
                    self.done = true;
                    Ok(())
                },
            },
            _ => Err(CodegenError::Unsupported),
        }
    }

    fn lower_override(&mut self, s: &Stmt) -> (r: Result<(), CodegenError>)
        ensures
            match lower_override(old(self)@, s@) {
                Some(st) => r is Ok && final(self)@ == st,
                None => r is Err,
            },
        decreases s, 0int,
    {
        match s {
            Stmt::Override { body } => {
                let saved_safe = self.safe;
                let saved = copy_scopes(&self.scopes);
                self.safe = false;
                self.lower_block(body)?;
                self.safe = saved_safe;
                self.scopes = saved;
                Ok(())
            },
            _ => Err(CodegenError::Unsupported),
        }
    }

    fn lower_compound(&mut self, name: &String, op: BinOp, value: &Expr) -> (r: Result<(), CodegenError>)
        requires
            fits(old(self)@),
        ensures
            match lower_compound(old(self)@, name@, op, value@) {
                Some(st) => r is Ok && final(self)@ == st,
                None => r is Err,
            },
    {
        proof {
            reveal(lower_compound);
        }
        match self.lookup_slot(name.as_str()) {
        Some(k) => {
            let cur = reg_text(self.regs);
            let l0 = cat(cat(cat(String::from_str("  "), cur.as_str()), " = load i32, i32* "), slot_text(k).as_str());
            let mut v0: Vec<String> = Vec::new();
            v0.push(l0);
            proof {
                assert(lines_view(v0@) =~= seq![v0@[0]@]);
            }
            let _ = self.emit_into_reg(v0);
            let v = self.lower_expr(value)?;
            if !self.fits_now() {
                return Err(CodegenError::Unsupported);
            }
            if op == BinOp::Add || op == BinOp::Sub || op == BinOp::Mul || op == BinOp::Div {
                let r1 = self.regs;
                let lines = bin_lines_exec(op, self.safe, r1, cur.as_str(), v.as_str());
                let _ = self.emit_into_reg(lines);
                let l = cat(cat(cat(String::from_str("  store i32 "), reg_text(r1).as_str()), ", i32* "), slot_text(k).as_str());
                self.push_line(l);
            } else {
                let l = cat(cat(cat(String::from_str("  store i32 "), v.as_str()), ", i32* "), slot_text(k).as_str());
                self.push_line(l);
            }
            Ok(())
        },
        None => Err(CodegenError::Unsupported),
    }
    }

    fn lower_print(&mut self, e: &Expr) -> (r: Result<(), CodegenError>)
        ensures
            match lower_print(old(self)@, e@) {
                Some(st) => r is Ok && final(self)@ == st,
                None => r is Err,
            },
    {
        proof {
            reveal(lower_print);
        }
        match e {
        Expr::StringLiteral(t) => {
            let n = crate::text::chars_of(t.as_str()).len();
            if plain_text_exec(t.as_str()) && n < LIMIT && self.strings.len() < LIMIT {
                let l = print_str_exec(self.strings.len(), n);
                self.push_line(l);
                let ghost ss = self@.strings;
                self.strings.push(t.clone());
                proof {
                    assert(self@.strings =~= ss.push(t@));
                }
                Ok(())
            } else {
                Err(CodegenError::Unsupported)
            }
        },
        _ => {
            let v = self.lower_expr(e)?;
            self.push_line(print_int_exec(v.as_str()));
            Ok(())
        },
    }
    }

    #[verifier::rlimit(100)]
    #[verifier::spinoff_prover]
    fn lower_check(&mut self, s: &Stmt) -> (r: Result<(), CodegenError>)
        ensures
            match lower_check(old(self)@, s@) {
                Some(st) => r is Ok && final(self)@ == st,
                None => r is Err,
            },
        decreases s, 0int,
    {
        match s {
            Stmt::Check { condition, then_block, else_block } => {
            let c = self.lower_expr(condition)?;
            if !self.fits_now() {
                return Err(CodegenError::Unsupported);
            }
            let a = self.labels;
            let r = self.regs;
            let dr = dec(r);
            let mut v: Vec<String> = Vec::new();
            v.push(cat(cat(cat(cat(String::from_str("  %c"), dr.as_str()), " = icmp ne i32 "), c.as_str()), ", 0"));
            v.push(cat(cat(cat(cat(cat(String::from_str("  br i1 %c"), dr.as_str()), ", label %"), label_text(a).as_str()), ", label %"), label_text(a + 1).as_str()));
            v.push(label_line(a));
            proof {
                assert(lines_view(v@) =~= seq![
                    "  %c"@ + decimal(r as nat) + " = icmp ne i32 "@ + c@ + ", 0"@,
                    "  br i1 %c"@ + decimal(r as nat) + ", label %"@ + label_name(a as nat) + ", label %"@ + label_name(a as nat + 1),
                    label_name(a as nat) + ":"@,
                ]);
            }
            let _ = self.emit_into_reg(v);
            self.labels = a + 3;
            let saved = copy_scopes(&self.scopes);
            self.lower_block(then_block)?;
            self.scopes = saved;
            self.join(a + 2, a + 1);
            match else_block {
                Some(eb) => {
                    let saved2 = copy_scopes(&self.scopes);
                    self.lower_block(eb)?;
                    self.scopes = saved2;
                },
                None => {},
            }
            self.join(a + 2, a + 2);
            Ok(())
        },
            _ => Err(CodegenError::Unsupported),
        }
    }


    #[verifier::rlimit(100)]
    fn lower_loop(&mut self, kind: &LoopKind, body: &Block) -> (r: Result<(), CodegenError>)
        requires
            fits(old(self)@),
        ensures
            match lower_loop(old(self)@, crate::ast::loop_kind_view(*kind), body@) {
                Some(st) => r is Ok && final(self)@ == st,
                None => r is Err,
            },
        decreases body, 4int,
    {
        match kind {
            LoopKind::Times(c) => {
                let v = self.lower_expr(c)?;
                if !self.fits_now() {
                    return Err(CodegenError::Unsupported);
                }
                self.lower_counted(None, "0", v.as_str(), "ult", body)
            },
            LoopKind::FromTo { var, from, to } => {
                let a = self.lower_expr(from)?;
                let b = self.lower_expr(to)?;
                if !self.fits_now() {
                    return Err(CodegenError::Unsupported);
                }
                self.lower_counted(Some(var), a.as_str(), b.as_str(), "sle", body)
            },
            LoopKind::While(_) => self.lower_cond_loop(kind, body),
            LoopKind::Infinite => self.lower_cond_loop(kind, body),
            _ => self.lower_cond_loop(kind, body),
        }
    }

    #[verifier::rlimit(100)]
    #[verifier::spinoff_prover]
    fn lower_counted(&mut self, var: Option<&String>, init: &str, limit: &str, pred: &str, body: &Block) -> (r: Result<(), CodegenError>)
        requires
            fits(old(self)@),
        ensures
            match lower_counted(old(self)@, match var { Some(v) => Some(v@), None => None }, init@, limit@, pred@, body@) {
                Some(st) => r is Ok && final(self)@ == st,
                None => r is Err,
            },
        decreases body, 3int,
    {
        let k = self.slots;
        let h = self.labels;
        let r = self.regs;
        let dr = dec(r);
        let mut v: Vec<String> = Vec::new();
        v.push(cat(cat(cat(String::from_str("  store i32 "), init), ", i32* "), slot_text(k).as_str()));
        v.push(br_text(h));
        v.push(label_line(h));
        v.push(cat(cat(cat(String::from_str("  "), reg_text(r).as_str()), " = load i32, i32* "), slot_text(k).as_str()));
        v.push(cat(cat(cat(cat(cat(cat(cat(String::from_str("  %c"), dr.as_str()), " = icmp "), pred), " i32 "), reg_text(r).as_str()), ", "), limit));
        v.push(cat(cat(cat(cat(cat(String::from_str("  br i1 %c"), dr.as_str()), ", label %"), label_text(h + 1).as_str()), ", label %"), label_text(h + 2).as_str()));
        v.push(label_line(h + 1));
        proof {
            assert(lines_view(v@) =~= seq![
                "  store i32 "@ + init@ + ", i32* "@ + slot_name(k as nat),
                "  br label %"@ + label_name(h as nat),
                label_name(h as nat) + ":"@,
                "  "@ + reg(r as nat) + " = load i32, i32* "@ + slot_name(k as nat),
                "  %c"@ + decimal(r as nat) + " = icmp "@ + pred@ + " i32 "@ + reg(r as nat) + ", "@ + limit@,
                "  br i1 %c"@ + decimal(r as nat) + ", label %"@ + label_name(h as nat + 1) + ", label %"@ + label_name(h as nat + 2),
                label_name(h as nat + 1) + ":"@,
            ]);
        }
        let _ = self.emit_into_reg(v);
        self.slots = k + 1;
        self.labels = h + 4;
        let saved_loops = copy_loops(&self.loops);
        let saved = copy_scopes(&self.scopes);
        let ghost lp = self@.loops;
        let ghost sc = self@.scopes;
        self.loops.push((h + 3, h + 2));
        match var {
            Some(name) => {
                self.scopes.push((String::from_str(name.as_str()), k));
                proof {
                    assert(self@.scopes =~= sc.push((name@, k as nat)));
                }
            },
            None => {},
        }
        proof {
            assert(self@.loops =~= lp.push((h as nat + 3, h as nat + 2)));
        }
        self.lower_block(body)?;
        self.loops = saved_loops;
        self.scopes = saved;
        if !self.fits_now() {
            return Err(CodegenError::Unsupported);
        }
        let r2 = self.regs;
        let d2 = dec(r2);
        let mut w: Vec<String> = Vec::new();
        if !self.done {
            w.push(br_text(h + 3));
        }
        w.push(label_line(h + 3));
        w.push(cat(cat(cat(String::from_str("  "), reg_text(r2).as_str()), " = load i32, i32* "), slot_text(k).as_str()));
        w.push(cat(cat(cat(cat(String::from_str("  %n"), d2.as_str()), " = add i32 "), reg_text(r2).as_str()), ", 1"));
        w.push(cat(cat(cat(String::from_str("  store i32 %n"), d2.as_str()), ", i32* "), slot_text(k).as_str()));
        w.push(br_text(h));
        w.push(label_line(h + 2));
        proof {
            assert(lines_view(w@) =~= (if self@.done { Seq::empty() } else { seq!["  br label %"@ + label_name(h as nat + 3)] }) + seq![
                label_name(h as nat + 3) + ":"@,
                "  "@ + reg(r2 as nat) + " = load i32, i32* "@ + slot_name(k as nat),
                "  %n"@ + decimal(r2 as nat) + " = add i32 "@ + reg(r2 as nat) + ", 1"@,
                "  store i32 %n"@ + decimal(r2 as nat) + ", i32* "@ + slot_name(k as nat),
                "  br label %"@ + label_name(h as nat),
                label_name(h as nat + 2) + ":"@,
            ]);
        }
        self.done = false;
        let _ = self.emit_into_reg(w);
        Ok(())
    }

    #[verifier::rlimit(100)]
    #[verifier::spinoff_prover]
    fn lower_cond_loop(&mut self, kind: &LoopKind, body: &Block) -> (r: Result<(), CodegenError>)
        requires
            fits(old(self)@),
        ensures
            match lower_cond_loop(old(self)@, crate::ast::loop_kind_view(*kind), body@) {
                Some(st) => r is Ok && final(self)@ == st,
                None => r is Err,
            },
        decreases body, 3int,
    {
        let h = self.labels;
        let mut v: Vec<String> = Vec::new();
        v.push(br_text(h));
        v.push(label_line(h));
        proof {
            assert(lines_view(v@) =~= seq!["  br label %"@ + label_name(h as nat), label_name(h as nat) + ":"@]);
        }
        self.push_lines(v);
        self.labels = h + 3;
        match kind {
            LoopKind::While(c) => {
                let cv = self.lower_expr(c)?;
                if !self.fits_now() {
                    return Err(CodegenError::Unsupported);
                }
                let dr = dec(self.regs);
                let mut w: Vec<String> = Vec::new();
                w.push(cat(cat(cat(cat(String::from_str("  %c"), dr.as_str()), " = icmp ne i32 "), cv.as_str()), ", 0"));
                w.push(cat(cat(cat(cat(cat(String::from_str("  br i1 %c"), dr.as_str()), ", label %"), label_text(h + 1).as_str()), ", label %"), label_text(h + 2).as_str()));
                w.push(label_line(h + 1));
                proof {
                    assert(lines_view(w@) =~= seq![
                        "  %c"@ + decimal(self@.regs) + " = icmp ne i32 "@ + cv@ + ", 0"@,
                        "  br i1 %c"@ + decimal(self@.regs) + ", label %"@ + label_name(h as nat + 1) + ", label %"@ + label_name(h as nat + 2),
                        label_name(h as nat + 1) + ":"@,
                    ]);
                }
                let _ = self.emit_into_reg(w);
            },
            LoopKind::Infinite => {
                let mut w: Vec<String> = Vec::new();
                w.push(br_text(h + 1));
                w.push(label_line(h + 1));
                proof {
                    assert(lines_view(w@) =~= seq!["  br label %"@ + label_name(h as nat + 1), label_name(h as nat + 1) + ":"@]);
                }
                self.push_lines(w);
            },
            _ => {
                return Err(CodegenError::Unsupported);
            },
        }
        let saved_loops = copy_loops(&self.loops);
        let saved = copy_scopes(&self.scopes);
        let ghost lp = self@.loops;
        self.loops.push((h, h + 2));
        proof {
            assert(self@.loops =~= lp.push((h as nat, h as nat + 2)));
        }
        self.lower_block(body)?;
        self.loops = saved_loops;
        self.scopes = saved;
        self.join(h, h + 2);
        Ok(())
    }

    fn lower_block(&mut self, b: &Block) -> (r: Result<(), CodegenError>)
        ensures
            match lower_block(old(self)@, b@) {
                Some(st) => r is Ok && final(self)@ == st,
                None => r is Err,
            },
        decreases b, 2int,
    {
        self.lower_stmts(&b.statements)?;
        match &b.tail_expr {
            Some(e) => {
                if !self.done {
                    let _ = self.lower_expr(e)?;
                }
                Ok(())
            },
            None => Ok(()),
        }
    }

    fn lower_stmts(&mut self, v: &Vec<Stmt>) -> (r: Result<(), CodegenError>)
        ensures
            match lower_stmts(old(self)@, stmts_view(v@)) {
                Some(st) => r is Ok && final(self)@ == st,
                None => r is Err,
            },
        decreases v, 0int,
    {
        let mut i: usize = 0;
        proof {
            assert(v@.take(0) =~= Seq::<Stmt>::empty());
        }
        while i < v.len()
            invariant
                i <= v@.len(),
                lower_stmts(old(self)@, stmts_view(v@.take(i as int))) == Some(self@),
            decreases v.len() - i,
        {
            proof {
                lemma_stmts_view_push(v@.take(i as int), v@[i as int]);
                assert(v@.take(i as int).push(v@[i as int]) =~= v@.take(i + 1));
                let sv = stmts_view(v@.take(i + 1));
                assert(sv.drop_last() =~= stmts_view(v@.take(i as int)));
                assert(sv.last() == v@[i as int]@);
            }
            match self.lower_stmt(&v[i]) {
                Ok(()) => {},
                Err(err) => {
                    proof {
                        lemma_stmts_view(v@);
                        lemma_stmts_view(v@.take(i + 1));
                        assert(stmts_view(v@).take(i + 1) =~= stmts_view(v@.take(i + 1)));
                        lemma_stmts_none(old(self)@, stmts_view(v@), i as int + 1);
                    }
                    return Err(err);
                },
            }
            i = i + 1;
        }
        proof {
            assert(v@.take(v@.len() as int) =~= v@);
        }
        Ok(())
    }
}

proof fn lemma_stmts_none(st: LowerView, ss: Seq<SpecStmt>, i: int)
    requires
        0 <= i <= ss.len(),
        lower_stmts(st, ss.take(i)) is None,
    ensures
        lower_stmts(st, ss) is None,
    decreases ss.len() - i,
{
    if ss.len() > i {
        assert(ss.drop_last().take(i) =~= ss.take(i));
        lemma_stmts_none(st, ss.drop_last(), i);
    } else {
        assert(ss.take(i) =~= ss);
    }
}

fn int_like_exec(t: &Type) -> (r: bool)
    ensures
        r == int_like(t@),
{
    match t {
        Type::Int => true,
        Type::Bool => true,
        _ => false,
    }
}

fn is_void(t: &Type) -> (r: bool)
    ensures
        r == (t@ == SpecType::Void),
{
    match t {
        Type::Void => true,
        _ => false,
    }
}

#[verifier::loop_isolation(false)]
fn task_ok_exec(s: &Stmt) -> (r: bool)
    ensures
        r == task_ok(s@),
{
    match s {
        Stmt::TaskDecl { type_params, params, return_type, is_async, .. } => {
            if type_params.len() != 0 || *is_async || params.len() >= LIMIT {
                return false;
            }
            let ghost ps = typed_names_view(params@);
            let mut i: usize = 0;
            while i < params.len()
                invariant
                    i <= params@.len(),
                    ps == typed_names_view(params@),
                    type_params@.len() == 0,
                    !*is_async,
                    params@.len() < LIMIT,
                    forall|j: int| 0 <= j < i ==> int_like(#[trigger] ps[j].1),
                decreases params.len() - i,
            {
                if !int_like_exec(&params[i].1) {
                    proof {
                        assert(!int_like(ps[i as int].1));
                        let sv = s@;
                        match sv {
                            SpecStmt::TaskDecl { params: p2, .. } => {
                                assert(p2 == ps);
                                assert(!(forall|j: int| 0 <= j < p2.len() ==> int_like(#[trigger] p2[j].1)));
                            },
                            _ => {},
                        }
                    }
                    return false;
                }
                i = i + 1;
            }
            int_like_exec(return_type) || is_void(return_type)
        },
        Stmt::ExternDecl { params, return_type, variadic, .. } => {
            let ghost ps = crate::ast::types_view(params@);
            proof {
                crate::ast::lemma_types_view(params@);
            }
            if *variadic || params.len() >= LIMIT {
                return false;
            }
            let mut i: usize = 0;
            while i < params.len()
                invariant
                    i <= params@.len(),
                    ps == crate::ast::types_view(params@),
                    ps.len() == params@.len(),
                    forall|q: int| 0 <= q < params@.len() ==> #[trigger] ps[q] == params@[q]@,
                    !*variadic,
                    params@.len() < LIMIT,
                    forall|j: int| 0 <= j < i ==> int_like(#[trigger] ps[j]),
                decreases params.len() - i,
            {
                if !int_like_exec(&params[i]) {
                    proof {
                        assert(!int_like(ps[i as int]));
                        let sv = s@;
                        match sv {
                            SpecStmt::ExternDecl { params: p2, .. } => {
                                assert(p2 == ps);
                                assert(!(forall|j: int| 0 <= j < p2.len() ==> int_like(#[trigger] p2[j])));
                            },
                            _ => {},
                        }
                    }
                    return false;
                }
                i = i + 1;
            }
            int_like_exec(return_type) || is_void(return_type)
        },
        _ => true,
    }
}

fn program_tasks_exec(ss: &Vec<Stmt>) -> (r: Vec<(String, usize, bool)>)
    ensures
        tasks_view(r@) == program_tasks(stmts_view(ss@)),
{
    let mut r: Vec<(String, usize, bool)> = Vec::new();
    let mut i: usize = 0;
    proof {
        assert(ss@.take(0) =~= Seq::<Stmt>::empty());
        assert(tasks_view(r@) =~= Seq::<(Seq<char>, nat, bool)>::empty());
    }
    while i < ss.len()
        invariant
            i <= ss@.len(),
            tasks_view(r@) == program_tasks(stmts_view(ss@.take(i as int))),
        decreases ss.len() - i,
    {
        proof {
            lemma_stmts_view_push(ss@.take(i as int), ss@[i as int]);
            assert(ss@.take(i as int).push(ss@[i as int]) =~= ss@.take(i + 1));
            let sv = stmts_view(ss@.take(i + 1));
            assert(sv.drop_last() =~= stmts_view(ss@.take(i as int)));
        }
        match &ss[i] {
            Stmt::TaskDecl { name, params, return_type, .. } => {
                let ghost before = r@;
                r.push((String::from_str(name.as_str()), params.len(), is_void(return_type)));
                proof {
                    assert(tasks_view(r@) =~= tasks_view(before).push((name@, params@.len() as nat, return_type@ == SpecType::Void)));
                }
            },
            Stmt::ExternDecl { name, params, return_type, .. } => {
                let ghost before = r@;
                r.push((String::from_str(name.as_str()), params.len(), is_void(return_type)));
                proof {
                    crate::ast::lemma_types_view(params@);
                    assert(tasks_view(r@) =~= tasks_view(before).push((name@, params@.len() as nat, return_type@ == SpecType::Void)));
                }
            },
            _ => {},
        }
        i = i + 1;
    }
    proof {
        assert(ss@.take(ss@.len() as int) =~= ss@);
    }
    r
}

fn copy_tasks(v: &Vec<(String, usize, bool)>) -> (r: Vec<(String, usize, bool)>)
    ensures
        tasks_view(r@) == tasks_view(v@),
{
    let mut r: Vec<(String, usize, bool)> = Vec::new();
    let mut i: usize = 0;
    while i < v.len()
        invariant
            i <= v@.len(),
            tasks_view(r@) == tasks_view(v@.take(i as int)),
        decreases v.len() - i,
    {
        let ghost before = r@;
        r.push((String::from_str(v[i].0.as_str()), v[i].1, v[i].2));
        proof {
            assert(v@.take(i + 1) =~= v@.take(i as int).push(v@[i as int]));
            assert(tasks_view(r@) =~= tasks_view(before).push((v@[i as int].0@, v@[i as int].1 as nat, v@[i as int].2)));
            assert(tasks_view(v@.take(i + 1)) =~= tasks_view(v@.take(i as int)).push((v@[i as int].0@, v@[i as int].1 as nat, v@[i as int].2)));
        }
        i = i + 1;
    }
    proof {
        assert(v@.take(v@.len() as int) =~= v@);
    }
    r
}

fn param_scopes_exec(params: &Vec<(String, Type)>) -> (r: Vec<(String, usize)>)
    ensures
        scopes_view(r@) == param_scopes(typed_names_view(params@)),
{
    let mut r: Vec<(String, usize)> = Vec::new();
    let mut i: usize = 0;
    while i < params.len()
        invariant
            i <= params@.len(),
            r@.len() == i,
            forall|j: int| 0 <= j < i ==> #[trigger] scopes_view(r@)[j] == (params@[j].0@, j as nat),
        decreases params.len() - i,
    {
        let ghost before = r@;
        r.push((String::from_str(params[i].0.as_str()), i));
        proof {
            assert forall|j: int| 0 <= j < i + 1 implies #[trigger] scopes_view(r@)[j] == (params@[j].0@, j as nat) by {
                if j < i {
                    assert(r@[j] == before[j]);
                    assert(scopes_view(before)[j] == (params@[j].0@, j as nat));
                }
            }
        }
        i = i + 1;
    }
    proof {
        assert(scopes_view(r@) =~= param_scopes(typed_names_view(params@)));
    }
    r
}

fn copy_lines(v: &Vec<String>) -> (r: Vec<String>)
    ensures
        lines_view(r@) == lines_view(v@),
{
    let mut r: Vec<String> = Vec::new();
    let mut i: usize = 0;
    while i < v.len()
        invariant
            i <= v@.len(),
            lines_view(r@) == lines_view(v@.take(i as int)),
        decreases v.len() - i,
    {
        let ghost before = r@;
        r.push(String::from_str(v[i].as_str()));
        proof {
            assert(v@.take(i + 1) =~= v@.take(i as int).push(v@[i as int]));
            assert(lines_view(r@) =~= lines_view(before).push(v@[i as int]@));
            assert(lines_view(v@.take(i + 1)) =~= lines_view(v@.take(i as int)).push(v@[i as int]@));
        }
        i = i + 1;
    }
    proof {
        assert(v@.take(v@.len() as int) =~= v@);
    }
    r
}

fn append_lines(out: &mut Vec<String>, v: &Vec<String>)
    ensures
        lines_view(final(out)@) == lines_view(old(out)@) + lines_view(v@),
{
    let mut i: usize = 0;
    while i < v.len()
        invariant
            i <= v@.len(),
            lines_view(out@) == lines_view(old(out)@) + lines_view(v@.take(i as int)),
        decreases v.len() - i,
    {
        let ghost before = out@;
        out.push(String::from_str(v[i].as_str()));
        proof {
            assert(v@.take(i + 1) =~= v@.take(i as int).push(v@[i as int]));
            assert(lines_view(out@) =~= lines_view(before).push(v@[i as int]@));
            assert(lines_view(old(out)@) + lines_view(v@.take(i + 1)) =~= lines_view(old(out)@) + lines_view(v@.take(i as int)) + seq![v@[i as int]@]);
        }
        i = i + 1;
    }
    proof {
        assert(v@.take(v@.len() as int) =~= v@);
    }
}

fn params_text_exec(n: usize) -> (r: String)
    ensures
        r@ == params_text(n as nat),
{
    let mut out = String::new();
    let mut k: usize = 0;
    while k < n
        invariant
            k <= n,
            out@ == params_text(k as nat),
        decreases n - k,
    {
        if k == 0 {
            out = cat(String::from_str("i32 %p"), dec(0).as_str());
        } else {
            out = cat(cat(out, ", i32 %p"), dec(k).as_str());
        }
        k = k + 1;
    }
    out
}

fn function_lines_exec(name: &str, n: usize, ret_void: bool, lw: &Lowerer) -> (r: Vec<String>)
    ensures
        lines_view(r@) == function_lines(name@, n as nat, ret_void, lw@),
{
    let mut out: Vec<String> = Vec::new();
    let head = cat(cat(cat(cat(cat(cat(String::from_str("define "), if ret_void { "void" } else { "i32" }), " @"), name), "("), params_text_exec(n).as_str()), ") {");
    out.push(head);
    out.push(String::from_str("entry:"));
    let ghost start = lines_view(out@);
    let mut k: usize = 0;
    proof {
        assert(lines_view(out@) =~= start + allocas(0));
    }
    while k < lw.slots
        invariant
            k <= lw.slots,
            lines_view(out@) == start + allocas(k as nat),
        decreases lw.slots - k,
    {
        let ghost before = out@;
        out.push(cat(cat(String::from_str("  "), slot_text(k).as_str()), " = alloca i32"));
        proof {
            assert(lines_view(out@) =~= lines_view(before).push(out@.last()@));
            assert(start + allocas((k + 1) as nat) =~= (start + allocas(k as nat)).push(out@.last()@));
        }
        k = k + 1;
    }
    let ghost mid = lines_view(out@);
    let mut k: usize = 0;
    proof {
        assert(lines_view(out@) =~= mid + param_stores(0));
    }
    while k < n
        invariant
            k <= n,
            lines_view(out@) == mid + param_stores(k as nat),
        decreases n - k,
    {
        let ghost before = out@;
        out.push(cat(cat(cat(String::from_str("  store i32 %p"), dec(k).as_str()), ", i32* "), slot_text(k).as_str()));
        proof {
            assert(lines_view(out@) =~= lines_view(before).push(out@.last()@));
            assert(mid + param_stores((k + 1) as nat) =~= (mid + param_stores(k as nat)).push(out@.last()@));
        }
        k = k + 1;
    }
    append_lines(&mut out, &lw.code);
    let ghost before = out@;
    out.push(String::from_str("}"));
    proof {
        assert(lines_view(out@) =~= lines_view(before).push("}"@));
        assert(lines_view(out@) =~= function_lines(name@, n as nat, ret_void, lw@));
    }
    out
}

impl Lowerer {
    fn fresh(tasks: &Vec<(String, usize, bool)>, strings: Vec<String>, scopes: Vec<(String, usize)>, n: usize, ret_void: bool) -> (r: Lowerer)
        ensures
            r@ == fresh(tasks_view(tasks@), lines_view(strings@), scopes_view(scopes@), n as nat, ret_void),
    {
        let r = Lowerer {
            code: Vec::new(),
            slots: n,
            regs: 0,
            labels: 0,
            scopes,
            loops: Vec::new(),
            done: false,
            safe: true,
            ret_void,
            strings,
            tasks: copy_tasks(tasks),
        };
        proof {
            assert(r@ =~= fresh(tasks_view(tasks@), lines_view(strings@), scopes_view(scopes@), n as nat, ret_void));
        }
        r
    }

    fn finish(&mut self)
        ensures
            final(self)@ == finish(old(self)@),
    {
        if !self.done {
            let l = String::from_str(if self.ret_void { "  ret void" } else { "  ret i32 0" });
            self.push_line(l);
        }
    }

    fn lower_top(&mut self, v: &Vec<Stmt>) -> (r: Result<(), CodegenError>)
        ensures
            match lower_top(old(self)@, stmts_view(v@)) {
                Some(st) => r is Ok && final(self)@ == st,
                None => r is Err,
            },
    {
        let mut i: usize = 0;
        proof {
            assert(v@.take(0) =~= Seq::<Stmt>::empty());
        }
        while i < v.len()
            invariant
                i <= v@.len(),
                lower_top(old(self)@, stmts_view(v@.take(i as int))) == Some(self@),
            decreases v.len() - i,
        {
            proof {
                lemma_stmts_view_push(v@.take(i as int), v@[i as int]);
                assert(v@.take(i as int).push(v@[i as int]) =~= v@.take(i + 1));
                let sv = stmts_view(v@.take(i + 1));
                assert(sv.drop_last() =~= stmts_view(v@.take(i as int)));
                assert(sv.last() == v@[i as int]@);
            }
            let skip = match &v[i] {
                Stmt::TaskDecl { .. } => true,
                Stmt::ExternDecl { .. } => true,
                Stmt::StructDecl { .. } => true,
                Stmt::EnumDecl { .. } => true,
                Stmt::TestDecl { .. } => true,
                _ => false,
            };
            if !skip {
                match self.lower_stmt(&v[i]) {
                    Ok(()) => {},
                    Err(err) => {
                        proof {
                            lemma_stmts_view(v@);
                            lemma_stmts_view(v@.take(i + 1));
                            assert(stmts_view(v@).take(i + 1) =~= stmts_view(v@.take(i + 1)));
                            lemma_top_none(old(self)@, stmts_view(v@), i as int + 1);
                        }
                        return Err(err);
                    },
                }
            }
            i = i + 1;
        }
        proof {
            assert(v@.take(v@.len() as int) =~= v@);
        }
        Ok(())
    }
}

proof fn lemma_top_none(st: LowerView, ss: Seq<SpecStmt>, i: int)
    requires
        0 <= i <= ss.len(),
        lower_top(st, ss.take(i)) is None,
    ensures
        lower_top(st, ss) is None,
    decreases ss.len() - i,
{
    if ss.len() > i {
        assert(ss.drop_last().take(i) =~= ss.take(i));
        lemma_top_none(st, ss.drop_last(), i);
    } else {
        assert(ss.take(i) =~= ss);
    }
}

proof fn lemma_tasks_none(tasks: Seq<(Seq<char>, nat, bool)>, strings: Seq<Seq<char>>, ss: Seq<SpecStmt>, i: int)
    requires
        0 <= i <= ss.len(),
        lower_tasks(tasks, strings, ss.take(i)) is None,
    ensures
        lower_tasks(tasks, strings, ss) is None,
    decreases ss.len() - i,
{
    if ss.len() > i {
        assert(ss.drop_last().take(i) =~= ss.take(i));
        lemma_tasks_none(tasks, strings, ss.drop_last(), i);
    } else {
        assert(ss.take(i) =~= ss);
    }
}

#[verifier::rlimit(100)]
fn task_fn_exec(tasks: &Vec<(String, usize, bool)>, strs: Vec<String>, s: &Stmt) -> (r: Result<(Vec<String>, Vec<String>), CodegenError>)
    ensures
        match task_fn(tasks_view(tasks@), lines_view(strs@), s@) {
            Some((fl, s2)) => r matches Ok(p) && lines_view(p.0@) == fl && lines_view(p.1@) == s2,
            None => r is Err,
        },
{
    proof {
        reveal(task_fn);
    }
    match s {
        Stmt::TaskDecl { name, params, return_type, body, .. } => {
            let void = is_void(return_type);
            let scopes = param_scopes_exec(params);
            let ghost st0 = fresh(tasks_view(tasks@), lines_view(strs@), param_scopes(typed_names_view(params@)), params@.len() as nat, void);
            let mut lw = Lowerer::fresh(tasks, strs, scopes, params.len(), void);
            assert(lw@ == st0);
            lw.lower_block(body)?;
            let ghost f = lw@;
            assert(lower_block(st0, body@) == Some(f));
            lw.finish();
            let ghost g = lw@;
            assert(g == finish(f));
            let fname = llvm_name_exec(name.as_str());
            let fl = function_lines_exec(fname.as_str(), params.len(), void, &lw);
            assert(lines_view(fl@) == function_lines(llvm_name(name@), typed_names_view(params@).len(), void, g));
            Ok((fl, lw.strings))
        },
        _ => {
            let v: Vec<String> = Vec::new();
            proof {
                assert(lines_view(v@) =~= Seq::<Seq<char>>::empty());
            }
            Ok((v, strs))
        },
    }
}

#[verifier::rlimit(100)]
#[verifier::loop_isolation(false)]
fn lower_tasks_exec(tasks: &Vec<(String, usize, bool)>, strings: Vec<String>, ss: &Vec<Stmt>) -> (r: Result<(Vec<String>, Vec<String>), CodegenError>)
    ensures
        match lower_tasks(tasks_view(tasks@), lines_view(strings@), stmts_view(ss@)) {
            Some((ls, strs)) => r matches Ok(p) && lines_view(p.0@) == ls && lines_view(p.1@) == strs,
            None => r is Err,
        },
{
    let ghost tv = tasks_view(tasks@);
    let ghost s0 = lines_view(strings@);
    let mut out: Vec<String> = Vec::new();
    let mut strs = strings;
    let mut i: usize = 0;
    proof {
        assert(ss@.take(0) =~= Seq::<Stmt>::empty());
        assert(lines_view(out@) =~= Seq::<Seq<char>>::empty());
    }
    while i < ss.len()
        invariant
            i <= ss@.len(),
            tv == tasks_view(tasks@),
            lower_tasks(tv, s0, stmts_view(ss@.take(i as int))) == Some((lines_view(out@), lines_view(strs@))),
        decreases ss.len() - i,
    {
        proof {
            lemma_stmts_view_push(ss@.take(i as int), ss@[i as int]);
            assert(ss@.take(i as int).push(ss@[i as int]) =~= ss@.take(i + 1));
            let sv = stmts_view(ss@.take(i + 1));
            assert(sv.drop_last() =~= stmts_view(ss@.take(i as int)));
            assert(sv.last() == ss@[i as int]@);
        }
        match task_fn_exec(tasks, strs, &ss[i]) {
            Ok((fl, s2)) => {
                append_lines(&mut out, &fl);
                strs = s2;
            },
            Err(err) => {
                proof {
                    assert(lower_tasks(tv, s0, stmts_view(ss@.take(i + 1))) is None);
                    lemma_stmts_view(ss@);
                    lemma_stmts_view(ss@.take(i + 1));
                    assert(stmts_view(ss@).take(i + 1) =~= stmts_view(ss@.take(i + 1)));
                    lemma_tasks_none(tv, s0, stmts_view(ss@), i as int + 1);
                }
                return Err(err);
            },
        }
        i = i + 1;
    }
    proof {
        assert(ss@.take(ss@.len() as int) =~= ss@);
    }
    Ok((out, strs))
}

fn short_strings_exec(strs: &Vec<String>) -> (r: bool)
    ensures
        r == short_strings(lines_view(strs@)),
{
    let mut i: usize = 0;
    while i < strs.len()
        invariant
            i <= strs@.len(),
            forall|k: int| 0 <= k < i ==> #[trigger] strs@[k]@.len() < LIMIT,
        decreases strs.len() - i,
    {
        if crate::text::chars_of(strs[i].as_str()).len() >= LIMIT {
            assert(lines_view(strs@)[i as int].len() >= LIMIT);
            return false;
        }
        i = i + 1;
    }
    proof {
        assert forall|k: int| 0 <= k < lines_view(strs@).len() implies #[trigger] lines_view(strs@)[k].len() < LIMIT by {
            assert(lines_view(strs@)[k] == strs@[k]@);
        }
    }
    true
}

fn string_lines_exec(strs: &Vec<String>) -> (r: Vec<String>)
    requires
        short_strings(lines_view(strs@)),
    ensures
        lines_view(r@) == string_lines(lines_view(strs@)),
{
    let mut out: Vec<String> = Vec::new();
    let mut k: usize = 0;
    proof {
        assert(lines_view(strs@.take(0)) =~= Seq::<Seq<char>>::empty());
        assert(lines_view(out@) =~= Seq::<Seq<char>>::empty());
    }
    while k < strs.len()
        invariant
            k <= strs@.len(),
            short_strings(lines_view(strs@)),
            lines_view(out@) == string_lines(lines_view(strs@.take(k as int))),
        decreases strs.len() - k,
    {
        let n = crate::text::chars_of(strs[k].as_str()).len();
        proof {
            assert(lines_view(strs@)[k as int] == strs@[k as int]@);
            let t = lines_view(strs@.take(k + 1));
            assert(t.drop_last() =~= lines_view(strs@.take(k as int)));
            assert(t.last() == strs@[k as int]@);
        }
        let l = cat(cat(cat(cat(cat(cat(String::from_str("@.str."), dec(k).as_str()), " = private unnamed_addr constant ["), dec(n + 1).as_str()), " x i8] c\""), strs[k].as_str()), "\\00\"");
        let ghost before = out@;
        out.push(l);
        proof {
            assert(lines_view(out@) =~= lines_view(before).push(l@));
        }
        k = k + 1;
    }
    proof {
        assert(strs@.take(strs@.len() as int) =~= strs@);
    }
    out
}

fn joined_exec(ls: &Vec<String>) -> (r: String)
    ensures
        r@ == joined(lines_view(ls@)),
{
    let mut out = String::new();
    let mut i: usize = 0;
    proof {
        assert(lines_view(ls@.take(0)) =~= Seq::<Seq<char>>::empty());
    }
    while i < ls.len()
        invariant
            i <= ls@.len(),
            out@ == joined(lines_view(ls@.take(i as int))),
        decreases ls.len() - i,
    {
        proof {
            let t = lines_view(ls@.take(i + 1));
            assert(t.drop_last() =~= lines_view(ls@.take(i as int)));
            assert(t.last() == ls@[i as int]@);
        }
        out.append(ls[i].as_str());
        out.append("\n");
        i = i + 1;
    }
    proof {
        assert(ls@.take(ls@.len() as int) =~= ls@);
    }
    out
}

fn header_lines_exec(triple: &str) -> (r: Vec<String>)
    ensures
        lines_view(r@) == header_lines(triple@),
{
    let mut out: Vec<String> = Vec::new();
    out.push(cat(cat(String::from_str("target triple = \""), triple), "\""));
    out.push(String::from_str("declare i32 @printf(i8*, ...)"));
    out.push(String::from_str("@.fmt.d = private unnamed_addr constant [4 x i8] c\"%d\\0A\\00\""));
    out.push(String::from_str("@.fmt.s = private unnamed_addr constant [4 x i8] c\"%s\\0A\\00\""));
    proof {
        assert(lines_view(out@) =~= header_lines(triple@));
    }
    out
}

fn build(ss: &Vec<Stmt>) -> (r: Result<(Lowerer, Vec<String>, Vec<String>), CodegenError>)
    ensures
        match built(stmts_view(ss@)) {
            Some((mf, tl, strs)) => r matches Ok(p) && p.0@ == mf && lines_view(p.1@) == tl && lines_view(p.2@) == strs,
            None => r matches Err(CodegenError::Unsupported),
        },
{
    proof {
        reveal(built);
    }
    let tasks = program_tasks_exec(ss);
    let no_strings: Vec<String> = Vec::new();
    let no_scopes: Vec<(String, usize)> = Vec::new();
    proof {
        assert(lines_view(no_strings@) =~= Seq::<Seq<char>>::empty());
        assert(scopes_view(no_scopes@) =~= Seq::<(Seq<char>, nat)>::empty());
    }
    let mut main = Lowerer::fresh(&tasks, no_strings, no_scopes, 0, false);
    match main.lower_top(ss) {
        Ok(()) => {},
        Err(_) => {
            return Err(CodegenError::Unsupported);
        },
    }
    main.finish();
    let strs0 = copy_lines(&main.strings);
    match lower_tasks_exec(&tasks, strs0, ss) {
        Ok((tl, strs)) => Ok((main, tl, strs)),
        Err(_) => Err(CodegenError::Unsupported),
    }
}

fn all_tasks_ok_exec(ss: &Vec<Stmt>) -> (r: bool)
    ensures
        r == all_tasks_ok(stmts_view(ss@)),
{
    let ghost sv = stmts_view(ss@);
    proof {
        lemma_stmts_view(ss@);
    }
    let mut i: usize = 0;
    while i < ss.len()
        invariant
            i <= ss@.len(),
            sv == stmts_view(ss@),
            sv.len() == ss@.len(),
            forall|q: int| 0 <= q < ss@.len() ==> #[trigger] sv[q] == ss@[q]@,
            forall|j: int| 0 <= j < i ==> task_ok(#[trigger] sv[j]),
        decreases ss.len() - i,
    {
        if !task_ok_exec(&ss[i]) {
            assert(!task_ok(sv[i as int]));
            return false;
        }
        i = i + 1;
    }
    true
}

fn types_text_exec(n: usize) -> (r: String)
    ensures
        r@ == types_text(n as nat),
{
    let mut out = String::new();
    let mut k: usize = 0;
    while k < n
        invariant
            k <= n,
            out@ == types_text(k as nat),
        decreases n - k,
    {
        if k == 0 {
            out = String::from_str("i32");
        } else {
            out = cat(out, ", i32");
        }
        k = k + 1;
    }
    out
}

fn extern_lines_exec(ss: &Vec<Stmt>) -> (r: Vec<String>)
    ensures
        lines_view(r@) == extern_lines(stmts_view(ss@)),
{
    let mut r: Vec<String> = Vec::new();
    let mut i: usize = 0;
    proof {
        assert(ss@.take(0) =~= Seq::<Stmt>::empty());
        assert(lines_view(r@) =~= Seq::<Seq<char>>::empty());
    }
    while i < ss.len()
        invariant
            i <= ss@.len(),
            lines_view(r@) == extern_lines(stmts_view(ss@.take(i as int))),
        decreases ss.len() - i,
    {
        proof {
            lemma_stmts_view_push(ss@.take(i as int), ss@[i as int]);
            assert(ss@.take(i as int).push(ss@[i as int]) =~= ss@.take(i + 1));
            let sv = stmts_view(ss@.take(i + 1));
            assert(sv.drop_last() =~= stmts_view(ss@.take(i as int)));
        }
        match &ss[i] {
            Stmt::ExternDecl { name, params, return_type, .. } => {
                proof {
                    crate::ast::lemma_types_view(params@);
                }
                let l = cat(cat(cat(cat(cat(cat(String::from_str("declare "), if is_void(return_type) { "void" } else { "i32" }), " @"), llvm_name_exec(name.as_str()).as_str()), "("), types_text_exec(params.len()).as_str()), ")");
                let ghost before = r@;
                r.push(l);
                proof {
                    assert(lines_view(r@) =~= lines_view(before).push(l@));
                }
            },
            _ => {},
        }
        i = i + 1;
    }
    proof {
        assert(ss@.take(ss@.len() as int) =~= ss@);
    }
    r
}

/// The LLVM module of a program for a target triple, as text (see
/// `module_lines`); `Err` where the lowering does not cover the program.
pub fn lower_program(program: &Program, triple: &str) -> (r: Result<String, CodegenError>)
    ensures
        match module_lines(program@.statements, triple@) {
            Some(ls) => r matches Ok(t) && t@ == joined(ls),
            None => r matches Err(CodegenError::Unsupported),
        },
{
    let ss = &program.statements;
    if !all_tasks_ok_exec(ss) {
        return Err(CodegenError::Unsupported);
    }
    let (main, tl, strs) = build(ss)?;
    if !short_strings_exec(&strs) {
        return Err(CodegenError::Unsupported);
    }
    let mut out = header_lines_exec(triple);
    append_lines(&mut out, &extern_lines_exec(ss));
    append_lines(&mut out, &string_lines_exec(&strs));
    append_lines(&mut out, &function_lines_exec("main", 0, false, &main));
    append_lines(&mut out, &tl);
    Ok(joined_exec(&out))
}

// ── Object code ─────────────────────────────────────────────────────────

#[verifier::external_type_specification]
#[verifier::external_body]
pub struct ExContext(Context);

#[verifier::external_type_specification]
#[verifier::external_body]
pub struct ExModule<'ctx>(Module<'ctx>);

/// A fresh LLVM context: `Context::create`. Trusted; it has nothing to
/// state.
#[verifier::external_body]
fn new_context() -> (r: Context) {
    Context::create()
}

/// LLVM's reading of a module's text: `Context::create_module_from_ir` on
/// the text copied into an LLVM memory buffer
/// (`MemoryBuffer::create_from_memory_range_copy`), with LLVM's message
/// when it refuses. Trusted; whether LLVM accepts the text is not stated.
#[verifier::external_body]
fn parse_module<'a>(ctx: &'a Context, text: &str) -> (r: Result<Module<'a>, String>) {
    ctx.create_module_from_ir(MemoryBuffer::create_from_memory_range_copy(text.as_bytes(), "sovereign")).map_err(|e| e.to_string())
}

/// The object code of a module: `TargetMachine::write_to_memory_buffer`
/// with `FileType::Object`, the buffer's bytes copied out, or LLVM's
/// message. Trusted; nothing is stated of the bytes.
#[verifier::external_body]
fn object_code(tm: &TargetMachine, m: &Module) -> (r: Result<Vec<u8>, String>) {
    tm.write_to_memory_buffer(m, FileType::Object).map(|b| b.as_slice().to_vec()).map_err(|e| e.to_string())
}

/// How hard LLVM optimises.
#[derive(Clone, Copy, PartialEq, Eq, Structural, Debug)]
pub enum OptChoice {
    Default,
    Aggressive,
}

/// The CPU, features and optimisation level of an executable's target
/// machine.
pub struct MachineOptions {
    pub cpu: String,
    pub features: String,
    pub opt: OptChoice,
}

/// The machine options of a build: the host's CPU and features, or
/// `generic` and none for a portable binary; `Default` optimisation for a
/// small binary, `Aggressive` otherwise.
pub fn machine_options(optimize_size: bool, generic: bool, host_cpu: &str, host_features: &str) -> (r: MachineOptions)
    ensures
        r.cpu@ == (if generic { "generic"@ } else { host_cpu@ }),
        r.features@ == (if generic { ""@ } else { host_features@ }),
        r.opt == (if optimize_size { OptChoice::Default } else { OptChoice::Aggressive }),
{
    let cpu = if generic { String::from_str("generic") } else { String::from_str(host_cpu) };
    let features = if generic { String::from_str("") } else { String::from_str(host_features) };
    let opt = if optimize_size { OptChoice::Default } else { OptChoice::Aggressive };
    MachineOptions { cpu, features, opt }
}

/// The object code of a program for a target: the module of
/// `lower_program` for the target's triple, read by LLVM and compiled by
/// the target's machine. `Unsupported` exactly where the lowering does not
/// cover the program; `Llvm` where LLVM refuses.
pub fn compile_to_object(program: &Program, target: &CrossTarget, opt: OptimizationLevel) -> (r: Result<Vec<u8>, CodegenError>)
    ensures
        module_lines(program@.statements, target.triple@) is None ==> r matches Err(CodegenError::Unsupported),
        r is Ok ==> module_lines(program@.statements, target.triple@) is Some,
        r matches Err(CodegenError::Unsupported) ==> module_lines(program@.statements, target.triple@) is None,
{
    let text = lower_program(program, target.triple.as_str())?;
    let ctx = new_context();
    let module = match parse_module(&ctx, text.as_str()) {
        Ok(m) => m,
        Err(e) => {
            return Err(CodegenError::Llvm(e));
        },
    };
    let tm = match target.create_target_machine(opt) {
        Some(t) => t,
        None => {
            return Err(CodegenError::Llvm(String::from_str("LLVM has no machine for this target")));
        },
    };
    match object_code(&tm, &module) {
        Ok(b) => Ok(b),
        Err(e) => Err(CodegenError::Llvm(e)),
    }
}

/// What a comparison with predicate `pred` of operands `a` and `b` leaves
/// after state `s2`: a flag computed by `icmp pred`, widened to a 32-bit 0
/// or 1 in the next register, which holds the value.
pub open spec fn compare_lowered(s2: LowerView, a: Seq<char>, b: Seq<char>, pred: Seq<char>) -> (LowerView, Seq<char>) {
    (
        LowerView {
            regs: s2.regs + 1,
            code: s2.code + seq![
                "  %c"@ + decimal(s2.regs) + " = icmp "@ + pred + " i32 "@ + a + ", "@ + b,
                "  "@ + reg(s2.regs) + " = zext i1 %c"@ + decimal(s2.regs) + " to i32"@,
            ],
            ..s2
        },
        reg(s2.regs),
    )
}

/// Lowering a comparison `left op right`, whose operands lower to `a` and
/// `b`, compares them with the matching signed predicate: `<` is strict
/// (`icmp slt`), `<=` is `icmp sle`, `>` is `icmp sgt`, `>=` is
/// `icmp sge`, `==` is `icmp eq` and `!=` is `icmp ne`.
pub proof fn law_comparison_lowering(st: LowerView, left: SpecExpr, op: BinOp, right: SpecExpr, s1: LowerView, a: Seq<char>, s2: LowerView, b: Seq<char>)
    requires
        fits(st),
        fits(s2),
        lower_expr(st, left) == Some((s1, a)),
        lower_expr(s1, right) == Some((s2, b)),
    ensures
        op == BinOp::Lt ==> lower_expr(st, SpecExpr::BinaryOp { left: Box::new(left), op, right: Box::new(right) }) == Some(compare_lowered(s2, a, b, "slt"@)),
        op == BinOp::Le ==> lower_expr(st, SpecExpr::BinaryOp { left: Box::new(left), op, right: Box::new(right) }) == Some(compare_lowered(s2, a, b, "sle"@)),
        op == BinOp::Gt ==> lower_expr(st, SpecExpr::BinaryOp { left: Box::new(left), op, right: Box::new(right) }) == Some(compare_lowered(s2, a, b, "sgt"@)),
        op == BinOp::Ge ==> lower_expr(st, SpecExpr::BinaryOp { left: Box::new(left), op, right: Box::new(right) }) == Some(compare_lowered(s2, a, b, "sge"@)),
        op == BinOp::Eq ==> lower_expr(st, SpecExpr::BinaryOp { left: Box::new(left), op, right: Box::new(right) }) == Some(compare_lowered(s2, a, b, "eq"@)),
        op == BinOp::Neq ==> lower_expr(st, SpecExpr::BinaryOp { left: Box::new(left), op, right: Box::new(right) }) == Some(compare_lowered(s2, a, b, "ne"@)),
{
    if op == BinOp::Lt || op == BinOp::Le || op == BinOp::Gt || op == BinOp::Ge || op == BinOp::Eq || op == BinOp::Neq {
        let p = pred_of(op)->0;
        let e = SpecExpr::BinaryOp { left: Box::new(left), op, right: Box::new(right) };
        let got = LowerView { regs: s2.regs + 1, ..emit(s2, bin_lines(op, s2.safe, s2.regs, a, b)) };
        assert(bin_lines(op, s2.safe, s2.regs, a, b) =~= seq![
            "  %c"@ + decimal(s2.regs) + " = icmp "@ + p + " i32 "@ + a + ", "@ + b,
            "  "@ + reg(s2.regs) + " = zext i1 %c"@ + decimal(s2.regs) + " to i32"@,
        ]);
        assert(got =~= compare_lowered(s2, a, b, p).0);
        assert(lower_expr(st, e) == Some((got, reg(s2.regs))));
    }
}

/// What an arithmetic instruction `ins` on `a` and `b` leaves after state
/// `s2`: one instruction into the next register, which holds the value.
pub open spec fn arith_lowered(s2: LowerView, a: Seq<char>, b: Seq<char>, ins: Seq<char>) -> (LowerView, Seq<char>) {
    (
        LowerView { regs: s2.regs + 1, code: s2.code.push("  "@ + reg(s2.regs) + " = "@ + ins + " i32 "@ + a + ", "@ + b), ..s2 },
        reg(s2.regs),
    )
}

/// Lowering arithmetic `left op right`, whose operands lower to `a` and
/// `b`: `+ - *` are `add`, `sub`, `mul` carrying `nsw` (a signed overflow is
/// not allowed to wrap) outside `override` and plain inside it; `/` is
/// signed `sdiv`, `%` signed `srem`; the bitwise operators are `and`, `or`,
/// `xor`, `shl` and the arithmetic shift `ashr`.
pub proof fn law_arithmetic_lowering(st: LowerView, left: SpecExpr, op: BinOp, right: SpecExpr, s1: LowerView, a: Seq<char>, s2: LowerView, b: Seq<char>)
    requires
        fits(st),
        fits(s2),
        lower_expr(st, left) == Some((s1, a)),
        lower_expr(s1, right) == Some((s2, b)),
    ensures
        op == BinOp::Add ==> lower_expr(st, SpecExpr::BinaryOp { left: Box::new(left), op, right: Box::new(right) })
            == Some(arith_lowered(s2, a, b, if s2.safe { "add nsw"@ } else { "add"@ })),
        op == BinOp::Sub ==> lower_expr(st, SpecExpr::BinaryOp { left: Box::new(left), op, right: Box::new(right) })
            == Some(arith_lowered(s2, a, b, if s2.safe { "sub nsw"@ } else { "sub"@ })),
        op == BinOp::Mul ==> lower_expr(st, SpecExpr::BinaryOp { left: Box::new(left), op, right: Box::new(right) })
            == Some(arith_lowered(s2, a, b, if s2.safe { "mul nsw"@ } else { "mul"@ })),
        op == BinOp::Div ==> lower_expr(st, SpecExpr::BinaryOp { left: Box::new(left), op, right: Box::new(right) })
            == Some(arith_lowered(s2, a, b, "sdiv"@)),
        op == BinOp::Mod ==> lower_expr(st, SpecExpr::BinaryOp { left: Box::new(left), op, right: Box::new(right) })
            == Some(arith_lowered(s2, a, b, "srem"@)),
        op == BinOp::BitAnd ==> lower_expr(st, SpecExpr::BinaryOp { left: Box::new(left), op, right: Box::new(right) })
            == Some(arith_lowered(s2, a, b, "and"@)),
        op == BinOp::BitOr ==> lower_expr(st, SpecExpr::BinaryOp { left: Box::new(left), op, right: Box::new(right) })
            == Some(arith_lowered(s2, a, b, "or"@)),
        op == BinOp::BitXor ==> lower_expr(st, SpecExpr::BinaryOp { left: Box::new(left), op, right: Box::new(right) })
            == Some(arith_lowered(s2, a, b, "xor"@)),
        op == BinOp::Shl ==> lower_expr(st, SpecExpr::BinaryOp { left: Box::new(left), op, right: Box::new(right) })
            == Some(arith_lowered(s2, a, b, "shl"@)),
        op == BinOp::Shr ==> lower_expr(st, SpecExpr::BinaryOp { left: Box::new(left), op, right: Box::new(right) })
            == Some(arith_lowered(s2, a, b, "ashr"@)),
{
    if arith_instr(op, s2.safe) is Some {
        let ins = arith_instr(op, s2.safe)->0;
        let e = SpecExpr::BinaryOp { left: Box::new(left), op, right: Box::new(right) };
        let got = LowerView { regs: s2.regs + 1, ..emit(s2, bin_lines(op, s2.safe, s2.regs, a, b)) };
        assert(got =~= arith_lowered(s2, a, b, ins).0);
        assert(lower_expr(st, e) == Some((got, reg(s2.regs))));
    }
}

/// Lowering a unary operation on an operand that lowers to `a`: `-a` is
/// `sub` from 0 (with `nsw` outside `override`), `!a` compares `a` with 0
/// (`icmp eq`) and widens the flag, `~a` is `xor` with -1.
pub proof fn law_unary_lowering(st: LowerView, op: UnaryOp, operand: SpecExpr, s1: LowerView, a: Seq<char>)
    requires
        fits(st),
        fits(s1),
        lower_expr(st, operand) == Some((s1, a)),
    ensures
        op == UnaryOp::Neg ==> lower_expr(st, SpecExpr::UnaryOp { op, operand: Box::new(operand) }) == Some((
            LowerView {
                regs: s1.regs + 1,
                code: s1.code.push("  "@ + reg(s1.regs) + " = "@ + (if s1.safe { "sub nsw"@ } else { "sub"@ }) + " i32 0, "@ + a),
                ..s1
            },
            reg(s1.regs),
        )),
        op == UnaryOp::Not ==> lower_expr(st, SpecExpr::UnaryOp { op, operand: Box::new(operand) }) == Some((
            LowerView {
                regs: s1.regs + 1,
                code: s1.code + seq![
                    "  %c"@ + decimal(s1.regs) + " = icmp eq i32 "@ + a + ", 0"@,
                    "  "@ + reg(s1.regs) + " = zext i1 %c"@ + decimal(s1.regs) + " to i32"@,
                ],
                ..s1
            },
            reg(s1.regs),
        )),
        op == UnaryOp::BitNot ==> lower_expr(st, SpecExpr::UnaryOp { op, operand: Box::new(operand) }) == Some((
            LowerView { regs: s1.regs + 1, code: s1.code.push("  "@ + reg(s1.regs) + " = xor i32 "@ + a + ", -1"@), ..s1 },
            reg(s1.regs),
        )),
{
    let e = SpecExpr::UnaryOp { op, operand: Box::new(operand) };
    let got = LowerView { regs: s1.regs + 1, ..emit(s1, unary_lines(op, s1.safe, s1.regs, a)) };
    assert(lower_expr(st, e) == Some((got, reg(s1.regs))));
    if op == UnaryOp::Neg {
        assert(got.code =~= s1.code.push("  "@ + reg(s1.regs) + " = "@ + (if s1.safe { "sub nsw"@ } else { "sub"@ }) + " i32 0, "@ + a));
    } else if op == UnaryOp::BitNot {
        assert(got.code =~= s1.code.push("  "@ + reg(s1.regs) + " = xor i32 "@ + a + ", -1"@));
    }
}

/// Lowering `left and right` / `left or right`, whose operands lower to `a`
/// and `b`: each operand is compared with 0 (`icmp ne`), the flags are
/// combined with `and` / `or`, and the result widened to a 32-bit 0 or 1.
pub proof fn law_logical_lowering(st: LowerView, left: SpecExpr, op: BinOp, right: SpecExpr, s1: LowerView, a: Seq<char>, s2: LowerView, b: Seq<char>)
    requires
        op == BinOp::And || op == BinOp::Or,
        fits(st),
        fits(s2),
        lower_expr(st, left) == Some((s1, a)),
        lower_expr(s1, right) == Some((s2, b)),
    ensures
        lower_expr(st, SpecExpr::BinaryOp { left: Box::new(left), op, right: Box::new(right) }) == Some((
            LowerView {
                regs: s2.regs + 1,
                code: s2.code + seq![
                    "  %a"@ + decimal(s2.regs) + " = icmp ne i32 "@ + a + ", 0"@,
                    "  %b"@ + decimal(s2.regs) + " = icmp ne i32 "@ + b + ", 0"@,
                    "  %c"@ + decimal(s2.regs) + " = "@ + (if op == BinOp::And { "and"@ } else { "or"@ }) + " i1 %a"@ + decimal(s2.regs)
                        + ", %b"@ + decimal(s2.regs),
                    "  "@ + reg(s2.regs) + " = zext i1 %c"@ + decimal(s2.regs) + " to i32"@,
                ],
                ..s2
            },
            reg(s2.regs),
        )),
{
    let e = SpecExpr::BinaryOp { left: Box::new(left), op, right: Box::new(right) };
    let got = LowerView { regs: s2.regs + 1, ..emit(s2, bin_lines(op, s2.safe, s2.regs, a, b)) };
    assert(lower_expr(st, e) == Some((got, reg(s2.regs))));
    assert(got.code =~= s2.code + seq![
        "  %a"@ + decimal(s2.regs) + " = icmp ne i32 "@ + a + ", 0"@,
        "  %b"@ + decimal(s2.regs) + " = icmp ne i32 "@ + b + ", 0"@,
        "  %c"@ + decimal(s2.regs) + " = "@ + (if op == BinOp::And { "and"@ } else { "or"@ }) + " i1 %a"@ + decimal(s2.regs)
            + ", %b"@ + decimal(s2.regs),
        "  "@ + reg(s2.regs) + " = zext i1 %c"@ + decimal(s2.regs) + " to i32"@,
    ]);
}

} // verus!
