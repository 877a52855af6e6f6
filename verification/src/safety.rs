//! Compile-time memory-safety checks that need no borrow checker:
//! use after free, double free, null dereference (a known null is an
//! error; a pointer that may be null, dereferenced without a check, is a
//! warning), the address of a local escaping through `return`, variables
//! read before they are assigned (a warning), and allocations never freed.
//!
//! The analyzer walks the program once, keeping a stack of scopes. Its
//! whole behaviour is stated as a transition function on a mathematical
//! model (`SafetyState`, `stmt_step`), and every executable step is proved
//! to follow it.
use vstd::prelude::*;
use crate::ast::{
    Type, Expr, Stmt, Block, Program, LoopKind, BinOp, SpecType, SpecExpr, SpecStmt, SpecBlock,
    SpecLoopKind, type_view, expr_view, exprs_view, stmts_view, block_view, typed_names_view,
    lemma_exprs_view_push, lemma_stmts_view_push, copy_type,
};
use crate::text::{str_eq, concat3, concat5};

verus! {

/// What is known of a pointer variable.
#[derive(Clone, Copy, PartialEq, Eq, Structural, Debug)]
pub enum PtrState {
    Live,
    Freed,
    Null,
    MaybeNull,
    Unknown,
}

/// One entry of a scope: a variable and the state of the pointer it holds.
pub struct PtrInfo {
    pub name: String,
    pub state: PtrState,
    pub line: usize,
}

#[verifier::ext_equal]
/// The model of the analyzer. A scope is a list of (variable, state)
/// entries in which the latest entry for a name counts.
pub struct SafetyState {
    pub errors: Seq<Seq<char>>,
    pub warnings: Seq<Seq<char>>,
    pub scopes: Seq<Seq<(Seq<char>, PtrState)>>,
    pub inits: Seq<Seq<Seq<char>>>,
    pub allocs: Seq<Seq<char>>,
    pub freed: Seq<Seq<char>>,
    pub ret: Option<SpecType>,
}

// ── Messages ────────────────────────────────────────────────────────────

pub open spec fn double_free_msg(n: Seq<char>) -> Seq<char> {
    "Double-free detected: '"@ + n + "' was already freed"@
}

pub open spec fn free_null_msg(n: Seq<char>) -> Seq<char> {
    "Free of null pointer: '"@ + n + "' is null"@
}

pub open spec fn free_unknown_msg(n: Seq<char>) -> Seq<char> {
    "Freeing '"@ + n + "' which was not allocated with alloc()"@
}

pub open spec fn use_after_free_msg(n: Seq<char>) -> Seq<char> {
    "Use-after-free: '"@ + n + "' was freed and cannot be used"@
}

pub open spec fn null_deref_msg(n: Seq<char>) -> Seq<char> {
    "Null dereference: '"@ + n + "' is known to be null"@
}

pub open spec fn maybe_null_deref_msg(n: Seq<char>) -> Seq<char> {
    "Potential null dereference: '"@ + n + "' might be null — check first:\n  check "@ + n + " != null { ... }"@
}

pub open spec fn freed_deref_msg(n: Seq<char>) -> Seq<char> {
    "Use-after-free: dereferencing freed pointer '"@ + n + "'"@
}

pub open spec fn dangling_msg(n: Seq<char>) -> Seq<char> {
    "Dangling pointer: returning address of local variable '"@ + n + "'"@
}

pub open spec fn uninit_msg(n: Seq<char>) -> Seq<char> {
    "Variable '"@ + n + "' is used before it is assigned"@
}

pub open spec fn maybe_null_msg(n: Seq<char>, f: Seq<char>) -> Seq<char> {
    "Variable '"@ + n + "' from '"@ + f + "' might be null — check before use"@
}

pub open spec fn leak_msg(n: Seq<char>) -> Seq<char> {
    "Possible memory leak: '"@ + n + "' allocated but not freed before scope exit"@
}

// ── The model's operations ──────────────────────────────────────────────

/// The state recorded for `name` in one scope: its latest entry.
pub open spec fn scope_state(sc: Seq<(Seq<char>, PtrState)>, name: Seq<char>) -> Option<PtrState>
    decreases sc.len(),
{
    if sc.len() == 0 {
        None
    } else if sc.last().0 == name {
        Some(sc.last().1)
    } else {
        scope_state(sc.drop_last(), name)
    }
}

/// The state of `name`: the innermost scope that records it decides;
/// `Unknown` where none does.
pub open spec fn state_of(scopes: Seq<Seq<(Seq<char>, PtrState)>>, name: Seq<char>) -> PtrState
    decreases scopes.len(),
{
    if scopes.len() == 0 {
        PtrState::Unknown
    } else {
        match scope_state(scopes.last(), name) {
            Some(s) => s,
            None => state_of(scopes.drop_last(), name),
        }
    }
}

pub open spec fn set_state(st: SafetyState, name: Seq<char>, s: PtrState) -> SafetyState {
    if st.scopes.len() == 0 {
        st
    } else {
        SafetyState {
            scopes: st.scopes.update(st.scopes.len() - 1, st.scopes.last().push((name, s))),
            ..st
        }
    }
}

pub open spec fn mark_init(st: SafetyState, name: Seq<char>) -> SafetyState {
    if st.inits.len() == 0 {
        st
    } else {
        SafetyState { inits: st.inits.update(st.inits.len() - 1, st.inits.last().push(name)), ..st }
    }
}

pub open spec fn is_init(st: SafetyState, name: Seq<char>) -> bool {
    init_in(st.inits, name)
}

/// Some open scope has assigned `name`.
pub open spec fn init_in(inits: Seq<Seq<Seq<char>>>, name: Seq<char>) -> bool {
    exists|i: int| 0 <= i < inits.len() && #[trigger] inits[i].contains(name)
}

pub open spec fn push_scope(st: SafetyState) -> SafetyState {
    SafetyState { scopes: st.scopes.push(Seq::empty()), inits: st.inits.push(Seq::empty()), ..st }
}

/// Entry `j` of a scope is the latest one for its name.
pub open spec fn latest_entry(sc: Seq<(Seq<char>, PtrState)>, j: int) -> bool {
    forall|k: int| j < k < sc.len() ==> #[trigger] sc[k].0 != sc[j].0
}

pub open spec fn leaks(sc: Seq<(Seq<char>, PtrState)>, allocs: Seq<Seq<char>>, n: int) -> Seq<Seq<char>>
    decreases n,
{
    if n <= 0 {
        Seq::empty()
    } else {
        let j = n - 1;
        let rest = leaks(sc, allocs, n - 1);
        if latest_entry(sc, j) && sc[j].1 == PtrState::Live && allocs.contains(sc[j].0) {
            rest.push(leak_msg(sc[j].0))
        } else {
            rest
        }
    }
}

/// Leaving a scope warns of every pointer in it still live and allocated.
pub open spec fn pop_scope(st: SafetyState) -> SafetyState {
    let warned = if st.scopes.len() == 0 {
        st.warnings
    } else {
        st.warnings + leaks(st.scopes.last(), st.allocs, st.scopes.last().len() as int)
    };
    SafetyState {
        warnings: warned,
        scopes: if st.scopes.len() == 0 { st.scopes } else { st.scopes.drop_last() },
        inits: if st.inits.len() == 0 { st.inits } else { st.inits.drop_last() },
        ..st
    }
}

pub open spec fn add_errors(st: SafetyState, es: Seq<Seq<char>>) -> SafetyState {
    SafetyState { errors: st.errors + es, ..st }
}

pub open spec fn insert_name(s: Seq<Seq<char>>, n: Seq<char>) -> Seq<Seq<char>> {
    if s.contains(n) { s } else { s.push(n) }
}

pub open spec fn remove_name(s: Seq<Seq<char>>, n: Seq<char>) -> Seq<Seq<char>>
    decreases s.len(),
{
    if s.len() == 0 {
        s
    } else if s.last() == n {
        remove_name(s.drop_last(), n)
    } else {
        remove_name(s.drop_last(), n).push(s.last())
    }
}

/// The errors that reading `e` reports.
pub open spec fn expr_errors(scopes: Seq<Seq<(Seq<char>, PtrState)>>, freed: Seq<Seq<char>>, e: SpecExpr) -> Seq<Seq<char>>
    decreases e,
{
    match e {
        SpecExpr::Identifier(n) => if freed.contains(n) && state_of(scopes, n) == PtrState::Freed {
            seq![use_after_free_msg(n)]
        } else {
            Seq::empty()
        },
        SpecExpr::Deref(inner) => {
            let own = match *inner {
                SpecExpr::Identifier(n) => match state_of(scopes, n) {
                    PtrState::Null => seq![null_deref_msg(n)],
                    PtrState::Freed => seq![freed_deref_msg(n)],
                    _ => Seq::empty(),
                },
                _ => Seq::empty(),
            };
            own + expr_errors(scopes, freed, *inner)
        },
        SpecExpr::Call { func, args, .. } => expr_errors(scopes, freed, *func) + exprs_errors(scopes, freed, args),
        SpecExpr::BinaryOp { left, right, .. } => expr_errors(scopes, freed, *left) + expr_errors(scopes, freed, *right),
        SpecExpr::UnaryOp { operand, .. } => expr_errors(scopes, freed, *operand),
        SpecExpr::Index { array, index } => expr_errors(scopes, freed, *array) + expr_errors(scopes, freed, *index),
        SpecExpr::FieldAccess { object, .. } => expr_errors(scopes, freed, *object),
        SpecExpr::Alloc { count, size } => expr_errors(scopes, freed, *count) + expr_errors(scopes, freed, *size),
        _ => Seq::empty(),
    }
}

pub open spec fn exprs_errors(scopes: Seq<Seq<(Seq<char>, PtrState)>>, freed: Seq<Seq<char>>, es: Seq<SpecExpr>) -> Seq<Seq<char>>
    decreases es,
{
    if es.len() == 0 {
        Seq::empty()
    } else {
        exprs_errors(scopes, freed, es.drop_last()) + expr_errors(scopes, freed, es.last())
    }
}

/// The warnings that reading `e` gives: a variable read before any open
/// scope assigned it (a called function's name is not a read), and a
/// dereference of a pointer that may be null.
pub open spec fn expr_warnings(scopes: Seq<Seq<(Seq<char>, PtrState)>>, inits: Seq<Seq<Seq<char>>>, e: SpecExpr) -> Seq<Seq<char>>
    decreases e,
{
    match e {
        SpecExpr::Identifier(n) => if init_in(inits, n) { Seq::empty() } else { seq![uninit_msg(n)] },
        SpecExpr::Deref(inner) => {
            let own = match *inner {
                SpecExpr::Identifier(n) => if state_of(scopes, n) == PtrState::MaybeNull {
                    seq![maybe_null_deref_msg(n)]
                } else {
                    Seq::empty()
                },
                _ => Seq::empty(),
            };
            own + expr_warnings(scopes, inits, *inner)
        },
        SpecExpr::Call { func, args, .. } => (if (*func) is Identifier {
            Seq::empty()
        } else {
            expr_warnings(scopes, inits, *func)
        }) + exprs_warnings(scopes, inits, args),
        SpecExpr::BinaryOp { left, right, .. } => expr_warnings(scopes, inits, *left) + expr_warnings(scopes, inits, *right),
        SpecExpr::UnaryOp { operand, .. } => expr_warnings(scopes, inits, *operand),
        SpecExpr::Index { array, index } => expr_warnings(scopes, inits, *array) + expr_warnings(scopes, inits, *index),
        SpecExpr::FieldAccess { object, .. } => expr_warnings(scopes, inits, *object),
        SpecExpr::Alloc { count, size } => expr_warnings(scopes, inits, *count) + expr_warnings(scopes, inits, *size),
        _ => Seq::empty(),
    }
}

pub open spec fn exprs_warnings(scopes: Seq<Seq<(Seq<char>, PtrState)>>, inits: Seq<Seq<Seq<char>>>, es: Seq<SpecExpr>) -> Seq<Seq<char>>
    decreases es,
{
    if es.len() == 0 {
        Seq::empty()
    } else {
        exprs_warnings(scopes, inits, es.drop_last()) + expr_warnings(scopes, inits, es.last())
    }
}

/// Reading `e` in state `st`.
pub open spec fn check_expr_step(st: SafetyState, e: SpecExpr) -> SafetyState {
    SafetyState {
        errors: st.errors + expr_errors(st.scopes, st.freed, e),
        warnings: st.warnings + expr_warnings(st.scopes, st.inits, e),
        ..st
    }
}

/// The variable that `v != null` or `null != v` shows not to be null.
pub open spec fn null_check_var(e: SpecExpr) -> Option<Seq<char>> {
    match e {
        SpecExpr::BinaryOp { left, op, right } => if op == BinOp::Neq {
            match *left {
                SpecExpr::Identifier(n) => if (*right) is Null { Some(n) } else { None },
                SpecExpr::Null => match *right {
                    SpecExpr::Identifier(n) => Some(n),
                    _ => None,
                },
                _ => None,
            }
        } else {
            None
        },
        _ => None,
    }
}

/// The variable that `v == null` or `null == v` shows to be null.
pub open spec fn null_eq_var(e: SpecExpr) -> Option<Seq<char>> {
    match e {
        SpecExpr::BinaryOp { left, op, right } => if op == BinOp::Eq {
            match *left {
                SpecExpr::Identifier(n) => if (*right) is Null { Some(n) } else { None },
                SpecExpr::Null => match *right {
                    SpecExpr::Identifier(n) => Some(n),
                    _ => None,
                },
                _ => None,
            }
        } else {
            None
        },
        _ => None,
    }
}

/// The pointer state that holds in the branch a condition guards: a tested
/// `v != null` is live there, a tested `v == null` is null.
pub open spec fn guarded_state(st: SafetyState, condition: SpecExpr) -> SafetyState {
    match null_check_var(condition) {
        Some(v) => set_state(st, v, PtrState::Live),
        None => match null_eq_var(condition) {
            Some(v) => set_state(st, v, PtrState::Null),
            None => st,
        },
    }
}

/// Functions whose pointer result may be null.
pub open spec fn may_return_null(f: Seq<char>) -> bool {
    "fopen"@.is_prefix_of(f) || "malloc"@.is_prefix_of(f)
}

/// What `let name = value` records about the pointer `name`.
pub open spec fn track_decl(st: SafetyState, name: Seq<char>, value: SpecExpr) -> SafetyState {
    match value {
        SpecExpr::Alloc { .. } => set_state(
            SafetyState { allocs: insert_name(st.allocs, name), ..st },
            name,
            PtrState::Live,
        ),
        SpecExpr::Null => set_state(st, name, PtrState::Null),
        SpecExpr::Call { func, .. } => match *func {
            SpecExpr::Identifier(f) => if may_return_null(f) {
                SafetyState {
                    warnings: set_state(st, name, PtrState::MaybeNull).warnings.push(maybe_null_msg(name, f)),
                    ..set_state(st, name, PtrState::MaybeNull)
                }
            } else {
                st
            },
            _ => st,
        },
        _ => st,
    }
}

/// `free name`: reports a double free or a free of null, warns of a free
/// of an unknown pointer, and marks the pointer freed.
pub open spec fn free_step(st: SafetyState, name: Seq<char>) -> SafetyState {
    let s = state_of(st.scopes, name);
    let st1 = if s == PtrState::Freed {
        add_errors(st, seq![double_free_msg(name)])
    } else if s == PtrState::Null {
        add_errors(st, seq![free_null_msg(name)])
    } else if s == PtrState::Unknown {
        SafetyState { warnings: st.warnings.push(free_unknown_msg(name)), ..st }
    } else {
        st
    };
    let st2 = set_state(st1, name, PtrState::Freed);
    SafetyState { freed: insert_name(st2.freed, name), allocs: remove_name(st2.allocs, name), ..st2 }
}

pub open spec fn init_names(st: SafetyState, ns: Seq<Seq<char>>) -> SafetyState
    decreases ns.len(),
{
    if ns.len() == 0 {
        st
    } else {
        mark_init(init_names(st, ns.drop_last()), ns.last())
    }
}

pub open spec fn init_params(st: SafetyState, ps: Seq<(Seq<char>, SpecType)>) -> SafetyState
    decreases ps.len(),
{
    if ps.len() == 0 {
        st
    } else {
        mark_init(init_params(st, ps.drop_last()), ps.last().0)
    }
}

/// `return e`: reading `e`, and a dangling pointer if `e` is the address
/// of an initialized variable.
pub open spec fn return_step(st: SafetyState, e: SpecExpr) -> SafetyState {
    let st1 = check_expr_step(st, e);
    match e {
        SpecExpr::AddressOf(inner) => match *inner {
            SpecExpr::Identifier(n) => if is_init(st1, n) {
                add_errors(st1, seq![dangling_msg(n)])
            } else {
                st1
            },
            _ => st1,
        },
        _ => st1,
    }
}

/// Checking one statement.
pub open spec fn stmt_step(st: SafetyState, s: SpecStmt) -> SafetyState
    decreases s,
{
    match s {
        SpecStmt::VarDecl { name, value, .. } => track_decl(mark_init(check_expr_step(st, value), name), name, value),
        SpecStmt::ConstDecl { name, .. } => mark_init(st, name),
        SpecStmt::MultiAssign { names, .. } => init_names(st, names),
        SpecStmt::Destructure { fields, .. } => init_names(st, fields),
        SpecStmt::Free { ptr } => match ptr {
            SpecExpr::Identifier(name) => free_step(st, name),
            _ => st,
        },
        SpecStmt::Assign { name, value } => {
            let st1 = mark_init(check_expr_step(st, value), name);
            if value is Null {
                set_state(st1, name, PtrState::Null)
            } else {
                st1
            }
        },
        SpecStmt::Return(Some(e)) => return_step(st, e),
        SpecStmt::TaskDecl { params, body, return_type, .. } => {
            let st1 = push_scope(SafetyState { ret: Some(return_type), ..st });
            let st2 = pop_scope(block_step(init_params(st1, params), body));
            SafetyState { ret: st.ret, ..st2 }
        },
        SpecStmt::Check { condition, then_block, else_block } => {
            let st1 = push_scope(check_expr_step(st, condition));
            let st2 = guarded_state(st1, condition);
            let st3 = pop_scope(block_step(st2, then_block));
            match else_block {
                Some(eb) => pop_scope(block_step(push_scope(st3), eb)),
                None => st3,
            }
        },
        SpecStmt::Loop { kind, body } => match kind {
            SpecLoopKind::While(c) => pop_scope(block_step(push_scope(check_expr_step(st, c)), body)),
            SpecLoopKind::Times(c) => pop_scope(block_step(push_scope(check_expr_step(st, c)), body)),
            SpecLoopKind::FromTo { var, from, to } => pop_scope(
                block_step(mark_init(push_scope(check_expr_step(check_expr_step(st, from), to)), var), body),
            ),
            SpecLoopKind::ForEach { var, .. } => pop_scope(block_step(mark_init(push_scope(st), var), body)),
            SpecLoopKind::Range { var, .. } => pop_scope(block_step(mark_init(push_scope(st), var), body)),
            _ => pop_scope(block_step(push_scope(st), body)),
        },
        SpecStmt::ExprStmt(e) => check_expr_step(st, e),
        SpecStmt::Print(e) => check_expr_step(st, e),
        SpecStmt::Override { body } => pop_scope(block_step(push_scope(st), body)),
        SpecStmt::ConstantTime { body } => pop_scope(block_step(push_scope(st), body)),
        SpecStmt::Assert { condition, .. } => {
            let st1 = check_expr_step(st, condition);
            match null_check_var(condition) {
                Some(v) => set_state(st1, v, PtrState::Live),
                None => st1,
            }
        },
        _ => st,
    }
}

/// Checking a block: its statements in order, then its tail expression.
pub open spec fn block_step(st: SafetyState, b: SpecBlock) -> SafetyState
    decreases b,
{
    let st1 = stmts_step(st, b.statements);
    match b.tail_expr {
        Some(e) => check_expr_step(st1, e),
        None => st1,
    }
}

pub open spec fn stmts_step(st: SafetyState, ss: Seq<SpecStmt>) -> SafetyState
    decreases ss,
{
    if ss.len() == 0 {
        st
    } else {
        stmt_step(stmts_step(st, ss.drop_last()), ss.last())
    }
}

// ── The analyzer ────────────────────────────────────────────────────────

pub struct SafetyAnalyzer {
    pub errors: Vec<String>,
    pub warnings: Vec<String>,
    ptr_states: Vec<Vec<PtrInfo>>,
    initialized: Vec<Vec<String>>,
    alloc_sites: Vec<String>,
    freed_ptrs: Vec<String>,
    current_ret: Option<Type>,
}

pub open spec fn strs(v: Seq<String>) -> Seq<Seq<char>> {
    v.map_values(|s: String| s@)
}

pub open spec fn scope_view(v: Seq<PtrInfo>) -> Seq<(Seq<char>, PtrState)> {
    v.map_values(|p: PtrInfo| (p.name@, p.state))
}

pub open spec fn scopes_view(v: Seq<Vec<PtrInfo>>) -> Seq<Seq<(Seq<char>, PtrState)>> {
    v.map_values(|s: Vec<PtrInfo>| scope_view(s@))
}

pub open spec fn inits_view(v: Seq<Vec<String>>) -> Seq<Seq<Seq<char>>> {
    v.map_values(|s: Vec<String>| strs(s@))
}

impl View for SafetyAnalyzer {
    type V = SafetyState;

    closed spec fn view(&self) -> SafetyState {
        SafetyState {
            errors: strs(self.errors@),
            warnings: strs(self.warnings@),
            scopes: scopes_view(self.ptr_states@),
            inits: inits_view(self.initialized@),
            allocs: strs(self.alloc_sites@),
            freed: strs(self.freed_ptrs@),
            ret: match self.current_ret {
                Some(t) => Some(type_view(t)),
                None => None,
            },
        }
    }
}

/// The state before any statement: one empty scope, nothing reported.
pub open spec fn initial_state() -> SafetyState {
    SafetyState {
        errors: Seq::empty(),
        warnings: Seq::empty(),
        scopes: seq![Seq::empty()],
        inits: seq![Seq::empty()],
        allocs: Seq::empty(),
        freed: Seq::empty(),
        ret: None,
    }
}

fn has_prefix(s: &str, p: &str) -> (r: bool)
    ensures
        r == p@.is_prefix_of(s@),
{
    let sc = crate::text::chars_of(s);
    let pc = crate::text::chars_of(p);
    if pc.len() > sc.len() {
        return false;
    }
    let mut i: usize = 0;
    while i < pc.len()
        invariant
            i <= pc@.len(),
            pc@.len() <= sc@.len(),
            sc@ == s@,
            pc@ == p@,
            forall|j: int| 0 <= j < i ==> pc@[j] == sc@[j],
        decreases pc.len() - i,
    {
        if pc[i] != sc[i] {
            return false;
        }
        i = i + 1;
    }
    assert(p@ =~= s@.subrange(0, p@.len() as int));
    true
}

fn contains_str(v: &Vec<String>, n: &str) -> (r: bool)
    ensures
        r == strs(v@).contains(n@),
{
    let mut i: usize = 0;
    while i < v.len()
        invariant
            i <= v@.len(),
            forall|j: int| 0 <= j < i ==> v@[j]@ != n@,
        decreases v.len() - i,
    {
        if str_eq(v[i].as_str(), n) {
            assert(strs(v@)[i as int] == n@);
            return true;
        }
        i = i + 1;
    }
    assert forall|j: int| 0 <= j < strs(v@).len() implies strs(v@)[j] != n@ by {
        assert(strs(v@)[j] == v@[j]@);
    }
    false
}

proof fn lemma_strs_push(v: Seq<String>, s: String)
    ensures
        strs(v.push(s)) == strs(v).push(s@),
{
    assert(strs(v.push(s)) =~= strs(v).push(s@));
}

fn insert_str(v: &mut Vec<String>, n: &str)
    ensures
        strs(final(v)@) == insert_name(strs(old(v)@), n@),
{
    if !contains_str(v, n) {
        let s = String::from_str(n);
        proof {
            lemma_strs_push(v@, s);
        }
        v.push(s);
    }
}

fn remove_str(v: &Vec<String>, n: &str) -> (r: Vec<String>)
    ensures
        strs(r@) == remove_name(strs(v@), n@),
{
    let mut r: Vec<String> = Vec::new();
    let mut i: usize = 0;
    while i < v.len()
        invariant
            i <= v@.len(),
            strs(r@) == remove_name(strs(v@.take(i as int)), n@),
        decreases v.len() - i,
    {
        proof {
            assert(v@.take(i + 1) =~= v@.take(i as int).push(v@[i as int]));
            lemma_strs_push(v@.take(i as int), v@[i as int]);
            assert(strs(v@.take(i + 1)).drop_last() =~= strs(v@.take(i as int)));
        }
        if !str_eq(v[i].as_str(), n) {
            proof {
                lemma_strs_push(r@, v@[i as int]);
            }
            r.push(v[i].clone());
            proof {
                assert(strs(r@) =~= remove_name(strs(v@.take(i as int)), n@).push(v@[i as int]@));
            }
        }
        i = i + 1;
    }
    assert(v@.take(v@.len() as int) =~= v@);
    r
}

impl SafetyAnalyzer {
    pub fn new() -> (r: SafetyAnalyzer)
        ensures
            r@ == initial_state(),
    {
        let mut ptr_states: Vec<Vec<PtrInfo>> = Vec::new();
        let first: Vec<PtrInfo> = Vec::new();
        proof {
            assert(scope_view(first@) =~= Seq::<(Seq<char>, PtrState)>::empty());
        }
        ptr_states.push(first);
        let mut initialized: Vec<Vec<String>> = Vec::new();
        let names: Vec<String> = Vec::new();
        proof {
            assert(strs(names@) =~= Seq::<Seq<char>>::empty());
        }
        initialized.push(names);
        let r = SafetyAnalyzer {
            errors: Vec::new(),
            warnings: Vec::new(),
            ptr_states,
            initialized,
            alloc_sites: Vec::new(),
            freed_ptrs: Vec::new(),
            current_ret: None,
        };
        proof {
            assert(scope_view(r.ptr_states@[0]@) =~= Seq::<(Seq<char>, PtrState)>::empty());
            assert(scopes_view(r.ptr_states@) =~= seq![Seq::<(Seq<char>, PtrState)>::empty()]);
            assert(strs(r.initialized@[0]@) =~= Seq::<Seq<char>>::empty());
            assert(inits_view(r.initialized@) =~= seq![Seq::<Seq<char>>::empty()]);
            assert(strs(r.errors@) =~= Seq::<Seq<char>>::empty());
            assert(strs(r.warnings@) =~= Seq::<Seq<char>>::empty());
            assert(strs(r.alloc_sites@) =~= Seq::<Seq<char>>::empty());
            assert(strs(r.freed_ptrs@) =~= Seq::<Seq<char>>::empty());
        }
        r
    }

    /// The errors and the warnings collected, in order.
    pub fn into_messages(self) -> (r: (Vec<String>, Vec<String>))
        ensures
            strs(r.0@) == self@.errors,
            strs(r.1@) == self@.warnings,
    {
        (self.errors, self.warnings)
    }

    /// Checks every statement of the program; `Err` holds the errors found
    /// if there are any. Warnings stay in `warnings`.
    pub fn analyze(&mut self, program: &Program) -> (r: Result<(), Vec<String>>)
        ensures
            final(self)@ == stmts_step(old(self)@, program@.statements),
            r is Ok <==> final(self)@.errors.len() == 0,
            r matches Err(es) ==> strs(es@) == final(self)@.errors,
    {
        self.check_stmts(&program.statements);
        if self.errors.len() == 0 {
            Ok(())
        } else {
            let mut es: Vec<String> = Vec::new();
            let mut i: usize = 0;
            while i < self.errors.len()
                invariant
                    i <= self.errors@.len(),
                    es@.len() == i,
                    forall|j: int| 0 <= j < i ==> #[trigger] es@[j]@ == self.errors@[j]@,
                decreases self.errors.len() - i,
            {
                es.push(self.errors[i].clone());
                i = i + 1;
            }
            assert(strs(es@) =~= strs(self.errors@));
            Err(es)
        }
    }

    fn error(&mut self, msg: String)
        ensures
            final(self)@ == add_errors(old(self)@, seq![msg@]),
    {
        proof {
            lemma_strs_push(self.errors@, msg);
        }
        self.errors.push(msg);
        proof {
            assert(strs(self.errors@) =~= strs(old(self).errors@) + seq![msg@]);
        }
    }

    fn warn(&mut self, msg: String)
        ensures
            final(self)@ == (SafetyState { warnings: old(self)@.warnings.push(msg@), ..old(self)@ }),
    {
        proof {
            lemma_strs_push(self.warnings@, msg);
        }
        self.warnings.push(msg);
    }

    fn push_scope(&mut self)
        ensures
            final(self)@ == push_scope(old(self)@),
    {
        let fresh: Vec<PtrInfo> = Vec::new();
        proof {
            assert(scope_view(fresh@) =~= Seq::<(Seq<char>, PtrState)>::empty());
        }
        self.ptr_states.push(fresh);
        let names: Vec<String> = Vec::new();
        proof {
            assert(strs(names@) =~= Seq::<Seq<char>>::empty());
        }
        self.initialized.push(names);
        proof {
            assert(scopes_view(self.ptr_states@) =~= scopes_view(old(self).ptr_states@).push(Seq::empty()));
            assert(inits_view(self.initialized@) =~= inits_view(old(self).initialized@).push(Seq::empty()));
        }
    }

    fn pop_scope(&mut self)
        ensures
            final(self)@ == pop_scope(old(self)@),
    {
        let ghost allocs = self@.allocs;
        match self.ptr_states.pop() {
            Some(scope) => {
                proof {
                    assert(scopes_view(self.ptr_states@) =~= scopes_view(old(self).ptr_states@).drop_last());
                }
                let ghost sc = scope_view(scope@);
                let mut j: usize = 0;
                while j < scope.len()
                    invariant
                        j <= scope@.len(),
                        sc == scope_view(scope@),
                        allocs == strs(self.alloc_sites@),
                        strs(self.warnings@) == strs(old(self).warnings@) + leaks(sc, allocs, j as int),
                        self.errors@ == old(self).errors@,
                        self.initialized@ == old(self).initialized@,
                        self.alloc_sites@ == old(self).alloc_sites@,
                        self.freed_ptrs@ == old(self).freed_ptrs@,
                        self.current_ret == old(self).current_ret,
                        scopes_view(self.ptr_states@) == scopes_view(old(self).ptr_states@).drop_last(),
                    decreases scope.len() - j,
                {
                    let mut latest = true;
                    let mut k: usize = j + 1;
                    while k < scope.len()
                        invariant
                            j < k <= scope@.len(),
                            sc == scope_view(scope@),
                            sc.len() == scope@.len(),
                            latest == (forall|m: int| j < m < k ==> #[trigger] sc[m].0 != sc[j as int].0),
                        decreases scope.len() - k,
                    {
                        proof {
                            assert(sc[k as int].0 == scope@[k as int].name@);
                            assert(sc[j as int].0 == scope@[j as int].name@);
                        }
                        if str_eq(scope[k].name.as_str(), scope[j].name.as_str()) {
                            latest = false;
                        }
                        k = k + 1;
                    }
                    let live = scope[j].state == PtrState::Live;
                    let allocated = contains_str(&self.alloc_sites, scope[j].name.as_str());
                    if latest && live && allocated {
                        let msg = concat3(
                            "Possible memory leak: '",
                            scope[j].name.as_str(),
                            "' allocated but not freed before scope exit",
                        );
                        proof {
                            lemma_strs_push(self.warnings@, msg);
                        }
                        self.warnings.push(msg);
                    }
                    proof {
                        assert(latest_entry(sc, j as int) == latest);
                    }
                    j = j + 1;
                }
            },
            None => {
                proof {
                    assert(scopes_view(old(self).ptr_states@).len() == 0);
                    assert(strs(self.warnings@) =~= strs(old(self).warnings@));
                }
            },
        }
        match self.initialized.pop() {
            Some(_) => {
                proof {
                    assert(inits_view(self.initialized@) =~= inits_view(old(self).initialized@).drop_last());
                }
            },
            None => {},
        }
        proof {
            assert(self@.warnings =~= pop_scope(old(self)@).warnings);
        }
    }

    fn mark_initialized(&mut self, name: &str)
        ensures
            final(self)@ == mark_init(old(self)@, name@),
    {
        match self.initialized.pop() {
            Some(top) => {
                let mut top = top;
                let s = String::from_str(name);
                proof {
                    lemma_strs_push(top@, s);
                }
                top.push(s);
                self.initialized.push(top);
                proof {
                    assert(inits_view(self.initialized@) =~= inits_view(old(self).initialized@).update(
                        inits_view(old(self).initialized@).len() - 1,
                        inits_view(old(self).initialized@).last().push(name@),
                    ));
                }
            },
            None => {},
        }
    }

    fn is_initialized(&self, name: &str) -> (r: bool)
        ensures
            r == is_init(self@, name@),
    {
        let mut i: usize = 0;
        while i < self.initialized.len()
            invariant
                i <= self.initialized@.len(),
                forall|j: int| 0 <= j < i ==> !(#[trigger] inits_view(self.initialized@)[j]).contains(name@),
            decreases self.initialized.len() - i,
        {
            if contains_str(&self.initialized[i], name) {
                proof {
                    assert(inits_view(self.initialized@)[i as int] == strs(self.initialized@[i as int]@));
                    assert(self@.inits == inits_view(self.initialized@));
                    assert(self@.inits[i as int].contains(name@));
                }
                return true;
            }
            proof {
                assert(inits_view(self.initialized@)[i as int] == strs(self.initialized@[i as int]@));
            }
            i = i + 1;
        }
        proof {
            assert(self@.inits == inits_view(self.initialized@));
        }
        false
    }

    fn set_ptr_state(&mut self, name: &str, state: PtrState)
        ensures
            final(self)@ == set_state(old(self)@, name@, state),
    {
        match self.ptr_states.pop() {
            Some(top) => {
                let mut top = top;
                let info = PtrInfo { name: String::from_str(name), state, line: 0 };
                top.push(info);
                self.ptr_states.push(top);
                proof {
                    assert(scope_view(top@) =~= scope_view(old(self).ptr_states@.last()@).push((name@, state)));
                    assert(scopes_view(self.ptr_states@) =~= scopes_view(old(self).ptr_states@).update(
                        scopes_view(old(self).ptr_states@).len() - 1,
                        scopes_view(old(self).ptr_states@).last().push((name@, state)),
                    ));
                }
            },
            None => {},
        }
    }

    fn get_ptr_state(&self, name: &str) -> (r: PtrState)
        ensures
            r == state_of(self@.scopes, name@),
    {
        let ghost scopes = self@.scopes;
        let mut i: usize = self.ptr_states.len();
        proof {
            assert(scopes.take(i as int) =~= scopes);
        }
        while i > 0
            invariant
                i <= self.ptr_states@.len(),
                scopes == scopes_view(self.ptr_states@),
                scopes.len() == self.ptr_states@.len(),
                state_of(scopes, name@) == state_of(scopes.take(i as int), name@),
            decreases i,
        {
            let scope = &self.ptr_states[i - 1];
            let ghost sv = scope_view(scope@);
            proof {
                assert(scopes[i - 1] == sv);
                assert(scopes.take(i as int).last() == sv);
                assert(scopes.take(i as int).drop_last() =~= scopes.take(i - 1));
                assert(sv.take(sv.len() as int) =~= sv);
            }
            let mut j: usize = scope.len();
            while j > 0
                invariant
                    0 < i <= self.ptr_states@.len(),
                    scopes == scopes_view(self.ptr_states@),
                    state_of(scopes, name@) == state_of(scopes.take(i as int), name@),
                    scopes.take(i as int).last() == sv,
                    scopes.take(i as int).len() == i,
                    j <= scope@.len(),
                    sv == scope_view(scope@),
                    sv.len() == scope@.len(),
                    scope_state(sv, name@) == scope_state(sv.take(j as int), name@),
                decreases j,
            {
                proof {
                    assert(sv.take(j as int).drop_last() =~= sv.take(j - 1));
                    assert(sv.take(j as int).last() == sv[j - 1]);
                    assert(sv[j - 1] == (scope@[j - 1].name@, scope@[j - 1].state));
                }
                if str_eq(scope[j - 1].name.as_str(), name) {
                    return scope[j - 1].state;
                }
                j = j - 1;
            }
            proof {
                assert(sv.take(0) =~= Seq::<(Seq<char>, PtrState)>::empty());
            }
            i = i - 1;
        }
        PtrState::Unknown
    }

    fn check_stmts(&mut self, v: &Vec<Stmt>)
        ensures
            final(self)@ == stmts_step(old(self)@, stmts_view(v@)),
        decreases v, 0int,
    {
        let mut i: usize = 0;
        while i < v.len()
            invariant
                i <= v@.len(),
                self@ == stmts_step(old(self)@, stmts_view(v@.take(i as int))),
            decreases v.len() - i,
        {
            proof {
                lemma_stmts_view_push(v@.take(i as int), v@[i as int]);
                assert(v@.take(i as int).push(v@[i as int]) =~= v@.take(i + 1));
                assert(stmts_view(v@.take(i + 1)).drop_last() =~= stmts_view(v@.take(i as int)));
            }
            self.check_stmt(&v[i]);
            i = i + 1;
        }
        assert(v@.take(v@.len() as int) =~= v@);
    }

    fn check_block(&mut self, block: &Block)
        ensures
            final(self)@ == block_step(old(self)@, block@),
        decreases block, 0int,
    {
        self.check_stmts(&block.statements);
        match &block.tail_expr {
            Some(tail) => self.check_expr(tail),
            None => {},
        }
    }

    fn mark_all(&mut self, names: &Vec<String>)
        ensures
            final(self)@ == init_names(old(self)@, crate::ast::strs_view(names@)),
    {
        let mut i: usize = 0;
        while i < names.len()
            invariant
                i <= names@.len(),
                self@ == init_names(old(self)@, crate::ast::strs_view(names@.take(i as int))),
            decreases names.len() - i,
        {
            proof {
                let nv = crate::ast::strs_view(names@.take(i + 1));
                assert(nv.drop_last() =~= crate::ast::strs_view(names@.take(i as int)));
                assert(nv.last() == names@[i as int]@);
            }
            self.mark_initialized(names[i].as_str());
            i = i + 1;
        }
        assert(names@.take(names@.len() as int) =~= names@);
    }

    fn mark_params(&mut self, params: &Vec<(String, Type)>)
        ensures
            final(self)@ == init_params(old(self)@, typed_names_view(params@)),
    {
        let mut i: usize = 0;
        while i < params.len()
            invariant
                i <= params@.len(),
                self@ == init_params(old(self)@, typed_names_view(params@.take(i as int))),
            decreases params.len() - i,
        {
            proof {
                let tv = typed_names_view(params@.take(i + 1));
                assert(tv.drop_last() =~= typed_names_view(params@.take(i as int)));
                assert(tv.last().0 == params@[i as int].0@);
            }
            self.mark_initialized(params[i].0.as_str());
            i = i + 1;
        }
        assert(params@.take(params@.len() as int) =~= params@);
    }

    fn free_pointer(&mut self, name: &String)
        ensures
            final(self)@ == free_step(old(self)@, name@),
    {
        let s = self.get_ptr_state(name.as_str());
        match s {
            PtrState::Freed => {
                self.error(concat3("Double-free detected: '", name.as_str(), "' was already freed"));
            },
            PtrState::Null => {
                self.error(concat3("Free of null pointer: '", name.as_str(), "' is null"));
            },
            PtrState::Unknown => {
                self.warn(concat3("Freeing '", name.as_str(), "' which was not allocated with alloc()"));
            },
            _ => {},
        }
        self.set_ptr_state(name.as_str(), PtrState::Freed);
        insert_str(&mut self.freed_ptrs, name.as_str());
        let kept = remove_str(&self.alloc_sites, name.as_str());
        self.alloc_sites = kept;
    }

    fn track_decl(&mut self, name: &String, value: &Expr)
        ensures
            final(self)@ == track_decl(old(self)@, name@, value@),
    {
        proof {
            reveal_with_fuel(expr_view, 2);
        }
        match value {
            Expr::Alloc { .. } => {
                let ghost st = self@;
                insert_str(&mut self.alloc_sites, name.as_str());
                proof {
                    assert(self@ == (SafetyState { allocs: insert_name(st.allocs, name@), ..st }));
                }
                self.set_ptr_state(name.as_str(), PtrState::Live);
            },
            Expr::Null => {
                self.set_ptr_state(name.as_str(), PtrState::Null);
            },
            Expr::Call { func, .. } => {
                match &**func {
                    Expr::Identifier(f) => {
                        if has_prefix(f.as_str(), "fopen") || has_prefix(f.as_str(), "malloc") {
                            self.set_ptr_state(name.as_str(), PtrState::MaybeNull);
                            self.warn(concat5("Variable '", name.as_str(), "' from '", f.as_str(), "' might be null — check before use"));
                        }
                    },
                    _ => {},
                }
            },
            _ => {},
        }
    }

    fn check_stmt(&mut self, stmt: &Stmt)
        ensures
            final(self)@ == stmt_step(old(self)@, stmt@),
        decreases stmt, 1int,
    {
        match stmt {
            Stmt::VarDecl { name, value, .. } => {
                self.check_expr(value);
                self.mark_initialized(name.as_str());
                self.track_decl(name, value);
            },
            Stmt::Free { ptr } => {
                match ptr {
                    Expr::Identifier(name) => self.free_pointer(name),
                    _ => {},
                }
            },
            Stmt::ConstDecl { name, .. } => self.mark_initialized(name.as_str()),
            Stmt::MultiAssign { names, .. } => self.mark_all(names),
            Stmt::Destructure { fields, .. } => self.mark_all(fields),
            Stmt::Assign { name, value } => {
                self.check_expr(value);
                self.mark_initialized(name.as_str());
                if matches!(value, Expr::Null) {
                    self.set_ptr_state(name.as_str(), PtrState::Null);
                }
            },
            Stmt::Return(Some(e)) => self.check_return(e),
            Stmt::TaskDecl { .. } => self.check_task(stmt),
            Stmt::Check { .. } => self.check_condition(stmt),
            Stmt::Loop { .. } => self.check_loop(stmt),
            Stmt::ExprStmt(e) => self.check_expr(e),
            Stmt::Print(e) => self.check_expr(e),
            Stmt::Override { body } => self.check_scoped(stmt),
            Stmt::ConstantTime { body } => self.check_scoped(stmt),
            Stmt::Assert { condition, .. } => {
                self.check_expr(condition);
                match extract_null_check(condition) {
                    Some(v) => self.set_ptr_state(v.as_str(), PtrState::Live),
                    None => {},
                }
            },
            _ => {},
        }
    }

    fn check_return(&mut self, e: &Expr)
        ensures
            final(self)@ == return_step(old(self)@, e@),
    {
        proof {
            reveal_with_fuel(expr_view, 2);
        }
        match e {
            _ => {
                self.check_expr(e);
                match e {
                    Expr::AddressOf(inner) => {
                        match &**inner {
                            Expr::Identifier(n) => {
                                if self.is_initialized(n.as_str()) {
                                    self.error(concat3("Dangling pointer: returning address of local variable '", n.as_str(), "'"));
                                }
                            },
                            _ => {},
                        }
                    },
                    _ => {},
                }
            },
        }
    }

    fn check_task(&mut self, stmt: &Stmt)
        requires
            stmt is TaskDecl,
        ensures
            final(self)@ == stmt_step(old(self)@, stmt@),
        decreases stmt, 0int,
    {
        match stmt {
            Stmt::TaskDecl { params, body, return_type, .. } => {
                let saved = match &self.current_ret {
                    Some(t) => Some(copy_type(t)),
                    None => None,
                };
                self.current_ret = Some(copy_type(return_type));
                self.push_scope();
                self.mark_params(params);
                self.check_block(body);
                self.pop_scope();
                self.current_ret = saved;
            },
            _ => {},
        }
    }

    fn check_condition(&mut self, stmt: &Stmt)
        requires
            stmt is Check,
        ensures
            final(self)@ == stmt_step(old(self)@, stmt@),
        decreases stmt, 0int,
    {
        match stmt {
            Stmt::Check { condition, then_block, else_block } => {
                self.check_expr(condition);
                let null_checked = extract_null_check(condition);
                self.push_scope();
                match &null_checked {
                    Some(v) => self.set_ptr_state(v.as_str(), PtrState::Live),
                    None => match extract_null_eq(condition) {
                        Some(v) => self.set_ptr_state(v.as_str(), PtrState::Null),
                        None => {},
                    },
                }
                self.check_block(then_block);
                self.pop_scope();
                match else_block {
                    Some(eb) => {
                        self.push_scope();
                        self.check_block(eb);
                        self.pop_scope();
                    },
                    None => {},
                }
            },
            _ => {},
        }
    }

    fn check_loop(&mut self, stmt: &Stmt)
        requires
            stmt is Loop,
        ensures
            final(self)@ == stmt_step(old(self)@, stmt@),
        decreases stmt, 0int,
    {
        match stmt {
            Stmt::Loop { kind, body } => {
                match kind {
                    LoopKind::While(c) => self.check_expr(c),
                    LoopKind::Times(c) => self.check_expr(c),
                    LoopKind::FromTo { var, from, to } => {
                        self.check_expr(from);
                        self.check_expr(to);
                        self.push_scope();
                        self.mark_initialized(var.as_str());
                        self.check_block(body);
                        self.pop_scope();
                        return;
                    },
                    LoopKind::ForEach { var, .. } | LoopKind::Range { var, .. } => {
                        self.push_scope();
                        self.mark_initialized(var.as_str());
                        self.check_block(body);
                        self.pop_scope();
                        return;
                    },
                    _ => {},
                }
                self.push_scope();
                self.check_block(body);
                self.pop_scope();
            },
            _ => {},
        }
    }

    fn check_scoped(&mut self, stmt: &Stmt)
        requires
            stmt is Override || stmt is ConstantTime,
        ensures
            final(self)@ == stmt_step(old(self)@, stmt@),
        decreases stmt, 0int,
    {
        match stmt {
            Stmt::Override { body } => {
                self.push_scope();
                self.check_block(body);
                self.pop_scope();
            },
            Stmt::ConstantTime { body } => {
                self.push_scope();
                self.check_block(body);
                self.pop_scope();
            },
            _ => {},
        }
    }

    fn check_exprs(&mut self, v: &Vec<Expr>)
        ensures
            final(self)@ == (SafetyState {
                errors: old(self)@.errors + exprs_errors(old(self)@.scopes, old(self)@.freed, exprs_view(v@)),
                warnings: old(self)@.warnings + exprs_warnings(old(self)@.scopes, old(self)@.inits, exprs_view(v@)),
                ..old(self)@
            }),
        decreases v,
    {
        let mut i: usize = 0;
        proof {
            assert(old(self)@.errors + Seq::<Seq<char>>::empty() =~= old(self)@.errors);
            assert(old(self)@.warnings + Seq::<Seq<char>>::empty() =~= old(self)@.warnings);
            assert(v@.take(0) =~= Seq::<Expr>::empty());
        }
        while i < v.len()
            invariant
                i <= v@.len(),
                self@ == (SafetyState {
                    errors: old(self)@.errors + exprs_errors(old(self)@.scopes, old(self)@.freed, exprs_view(v@.take(i as int))),
                    warnings: old(self)@.warnings + exprs_warnings(old(self)@.scopes, old(self)@.inits, exprs_view(v@.take(i as int))),
                    ..old(self)@
                }),
            decreases v.len() - i,
        {
            proof {
                lemma_exprs_view_push(v@.take(i as int), v@[i as int]);
                assert(v@.take(i as int).push(v@[i as int]) =~= v@.take(i + 1));
                assert(exprs_view(v@.take(i + 1)).drop_last() =~= exprs_view(v@.take(i as int)));
            }
            self.check_expr(&v[i]);
            proof {
                let prev = exprs_errors(old(self)@.scopes, old(self)@.freed, exprs_view(v@.take(i as int)));
                let e = expr_errors(old(self)@.scopes, old(self)@.freed, v@[i as int]@);
                assert(old(self)@.errors + prev + e =~= old(self)@.errors + (prev + e));
                let pw = exprs_warnings(old(self)@.scopes, old(self)@.inits, exprs_view(v@.take(i as int)));
                let w = expr_warnings(old(self)@.scopes, old(self)@.inits, v@[i as int]@);
                assert(old(self)@.warnings + pw + w =~= old(self)@.warnings + (pw + w));
            }
            i = i + 1;
        }
        assert(v@.take(v@.len() as int) =~= v@);
    }

    /// Reading a variable: a use after free if it was freed.
    fn check_freed_use(&mut self, name: &String)
        ensures
            final(self)@ == add_errors(old(self)@, expr_errors(old(self)@.scopes, old(self)@.freed, SpecExpr::Identifier(name@))),
    {
        if contains_str(&self.freed_ptrs, name.as_str()) {
            match self.get_ptr_state(name.as_str()) {
                PtrState::Freed => {
                    self.error(concat3("Use-after-free: '", name.as_str(), "' was freed and cannot be used"));
                },
                _ => {
                    proof {
                        assert(self@.errors + Seq::<Seq<char>>::empty() =~= self@.errors);
                    }
                },
            }
        } else {
            proof {
                assert(self@.errors + Seq::<Seq<char>>::empty() =~= self@.errors);
            }
        }
    }

    /// Reading a variable: a warning if no open scope has assigned it.
    fn check_init_use(&mut self, name: &String)
        ensures
            final(self)@ == (SafetyState {
                warnings: old(self)@.warnings + expr_warnings(old(self)@.scopes, old(self)@.inits, SpecExpr::Identifier(name@)),
                ..old(self)@
            }),
    {
        if !self.is_initialized(name.as_str()) {
            self.warn(concat3("Variable '", name.as_str(), "' is used before it is assigned"));
            proof {
                assert(old(self)@.warnings.push(uninit_msg(name@)) =~= old(self)@.warnings + seq![uninit_msg(name@)]);
            }
        } else {
            proof {
                assert(self@.warnings + Seq::<Seq<char>>::empty() =~= self@.warnings);
            }
        }
    }

    #[verifier::rlimit(50)]
    fn check_expr(&mut self, expr: &Expr)
        ensures
            final(self)@ == check_expr_step(old(self)@, expr@),
        decreases expr,
    {
        let ghost st = self@;
        proof {
            reveal_with_fuel(expr_view, 2);
        }
        match expr {
            Expr::Identifier(name) => {
                self.check_freed_use(name);
                self.check_init_use(name);
            },
            Expr::Deref(inner) => {
                match &**inner {
                    Expr::Identifier(name) => {
                        match self.get_ptr_state(name.as_str()) {
                            PtrState::Null => {
                                self.error(concat3("Null dereference: '", name.as_str(), "' is known to be null"));
                                proof {
                                    assert(self@.warnings + Seq::<Seq<char>>::empty() =~= self@.warnings);
                                }
                            },
                            PtrState::MaybeNull => {
                                self.warn(concat5(
                                    "Potential null dereference: '",
                                    name.as_str(),
                                    "' might be null — check first:\n  check ",
                                    name.as_str(),
                                    " != null { ... }",
                                ));
                                proof {
                                    assert(self@.errors + Seq::<Seq<char>>::empty() =~= self@.errors);
                                }
                            },
                            PtrState::Freed => {
                                self.error(concat3("Use-after-free: dereferencing freed pointer '", name.as_str(), "'"));
                                proof {
                                    assert(self@.warnings + Seq::<Seq<char>>::empty() =~= self@.warnings);
                                }
                            },
                            _ => {
                                proof {
                                    assert(self@.errors + Seq::<Seq<char>>::empty() =~= self@.errors);
                                    assert(self@.warnings + Seq::<Seq<char>>::empty() =~= self@.warnings);
                                }
                            },
                        }
                    },
                    _ => {
                        proof {
                            assert(self@.errors + Seq::<Seq<char>>::empty() =~= self@.errors);
                            assert(self@.warnings + Seq::<Seq<char>>::empty() =~= self@.warnings);
                        }
                    },
                }
                self.check_expr(inner);
                proof {
                    assert(self@.errors =~= st.errors + expr_errors(st.scopes, st.freed, expr@));
                    assert(self@.warnings =~= st.warnings + expr_warnings(st.scopes, st.inits, expr@));
                }
            },
            Expr::Call { func, args, .. } => {
                match &**func {
                    Expr::Identifier(name) => {
                        self.check_freed_use(name);
                        proof {
                            assert(self@.warnings + Seq::<Seq<char>>::empty() =~= self@.warnings);
                        }
                    },
                    _ => self.check_expr(func),
                }
                self.check_exprs(args);
                proof {
                    assert(self@.errors =~= st.errors + expr_errors(st.scopes, st.freed, expr@));
                    assert(self@.warnings =~= st.warnings + expr_warnings(st.scopes, st.inits, expr@));
                }
            },
            Expr::BinaryOp { left, right, .. } => {
                self.check_expr(left);
                self.check_expr(right);
                proof {
                    assert(self@.errors =~= st.errors + expr_errors(st.scopes, st.freed, expr@));
                    assert(self@.warnings =~= st.warnings + expr_warnings(st.scopes, st.inits, expr@));
                }
            },
            Expr::UnaryOp { operand, .. } => self.check_expr(operand),
            Expr::Index { array, index } => {
                self.check_expr(array);
                self.check_expr(index);
                proof {
                    assert(self@.errors =~= st.errors + expr_errors(st.scopes, st.freed, expr@));
                    assert(self@.warnings =~= st.warnings + expr_warnings(st.scopes, st.inits, expr@));
                }
            },
            Expr::FieldAccess { object, .. } => self.check_expr(object),
            Expr::Alloc { count, size } => {
                self.check_expr(count);
                self.check_expr(size);
                proof {
                    assert(self@.errors =~= st.errors + expr_errors(st.scopes, st.freed, expr@));
                    assert(self@.warnings =~= st.warnings + expr_warnings(st.scopes, st.inits, expr@));
                }
            },
            _ => {
                proof {
                    assert(self@.errors + Seq::<Seq<char>>::empty() =~= self@.errors);
                    assert(self@.warnings + Seq::<Seq<char>>::empty() =~= self@.warnings);
                }
            },
        }
    }
}

/// The variable that a test `v != null` (either way round) shows not to
/// be null.
fn extract_null_check(e: &Expr) -> (r: Option<String>)
    ensures
        match r {
            Some(s) => null_check_var(e@) == Some(s@),
            None => null_check_var(e@) is None,
        },
{
    proof {
        reveal_with_fuel(expr_view, 2);
    }
    match e {
        Expr::BinaryOp { left, op, right } => {
            if *op == BinOp::Neq {
                match &**left {
                    Expr::Identifier(n) => if matches!(&**right, Expr::Null) { Some(n.clone()) } else { None },
                    Expr::Null => match &**right {
                        Expr::Identifier(n) => Some(n.clone()),
                        _ => None,
                    },
                    _ => None,
                }
            } else {
                None
            }
        },
        _ => None,
    }
}

/// The variable that a test `v == null` (either way round) shows to be
/// null.
fn extract_null_eq(e: &Expr) -> (r: Option<String>)
    ensures
        match r {
            Some(s) => null_eq_var(e@) == Some(s@),
            None => null_eq_var(e@) is None,
        },
{
    proof {
        reveal_with_fuel(expr_view, 2);
    }
    match e {
        Expr::BinaryOp { left, op, right } => {
            if *op == BinOp::Eq {
                match &**left {
                    Expr::Identifier(n) => if matches!(&**right, Expr::Null) { Some(n.clone()) } else { None },
                    Expr::Null => match &**right {
                        Expr::Identifier(n) => Some(n.clone()),
                        _ => None,
                    },
                    _ => None,
                }
            } else {
                None
            }
        },
        _ => None,
    }
}

// ── Laws ────────────────────────────────────────────────────────────────

/// Freeing a pointer twice reports a double free at the second `free`.
pub proof fn law_double_free(st: SafetyState, p: Seq<char>)
    requires
        st.scopes.len() > 0,
    ensures
        free_step(free_step(st, p), p).errors == free_step(st, p).errors.push("Double-free detected: '"@ + p + "' was already freed"@),
{
    let s1 = free_step(st, p);
    assert(s1.scopes.last().last() == (p, PtrState::Freed));
    assert(state_of(s1.scopes, p) == PtrState::Freed);
    assert(s1.errors + seq![double_free_msg(p)] =~= s1.errors.push(double_free_msg(p)));
}

/// After `free p`, reading `p` reports a use after free.
pub proof fn law_use_after_free(st: SafetyState, p: Seq<char>)
    requires
        st.scopes.len() > 0,
    ensures
        check_expr_step(free_step(st, p), SpecExpr::Identifier(p)).errors
            == free_step(st, p).errors.push("Use-after-free: '"@ + p + "' was freed and cannot be used"@),
{
    let s1 = free_step(st, p);
    assert(s1.scopes.last().last() == (p, PtrState::Freed));
    assert(state_of(s1.scopes, p) == PtrState::Freed);
    if !st.freed.contains(p) {
        assert(st.freed.push(p)[st.freed.len() as int] == p);
    }
    assert(s1.freed.contains(p));
    assert(s1.errors + seq![use_after_free_msg(p)] =~= s1.errors.push(use_after_free_msg(p)));
}

/// Returning the address of a variable initialized in an open scope
/// reports a dangling pointer, and nothing else.
pub proof fn law_dangling_return(st: SafetyState, x: Seq<char>)
    requires
        is_init(st, x),
    ensures
        stmt_step(st, SpecStmt::Return(Some(SpecExpr::AddressOf(Box::new(SpecExpr::Identifier(x)))))).errors
            == st.errors.push("Dangling pointer: returning address of local variable '"@ + x + "'"@),
{
    let e = SpecExpr::AddressOf(Box::new(SpecExpr::Identifier(x)));
    assert(expr_errors(st.scopes, st.freed, e) =~= Seq::<Seq<char>>::empty());
    let st1 = check_expr_step(st, e);
    assert(st1.errors =~= st.errors);
    assert(st1.inits == st.inits);
    assert(is_init(st1, x));
    assert(st1.errors + seq![dangling_msg(x)] =~= st.errors.push(dangling_msg(x)));
}


/// `b` keeps every message of `a`, in place: analysis only adds messages.
pub open spec fn grows(a: SafetyState, b: SafetyState) -> bool {
    &&& a.errors.is_prefix_of(b.errors)
    &&& a.warnings.is_prefix_of(b.warnings)
}

proof fn lemma_grows_trans(a: SafetyState, b: SafetyState, c: SafetyState)
    requires
        grows(a, b),
        grows(b, c),
    ensures
        grows(a, c),
{
    assert(a.errors.is_prefix_of(c.errors)) by {
        assert forall|i: int| 0 <= i < a.errors.len() implies a.errors[i] == c.errors[i] by {
            assert(a.errors[i] == b.errors[i]);
        }
    }
    assert(a.warnings.is_prefix_of(c.warnings)) by {
        assert forall|i: int| 0 <= i < a.warnings.len() implies a.warnings[i] == c.warnings[i] by {
            assert(a.warnings[i] == b.warnings[i]);
        }
    }
}

proof fn lemma_grows_append(s: Seq<Seq<char>>, t: Seq<Seq<char>>)
    ensures
        s.is_prefix_of(s + t),
        s.is_prefix_of(s),
{
    assert forall|i: int| 0 <= i < s.len() implies s[i] == (s + t)[i] by {}
}

proof fn lemma_expr_grows(st: SafetyState, e: SpecExpr)
    ensures
        grows(st, check_expr_step(st, e)),
{
    lemma_grows_append(st.errors, expr_errors(st.scopes, st.freed, e));
    lemma_grows_append(st.warnings, expr_warnings(st.scopes, st.inits, e));
}

proof fn lemma_simple_grows(st: SafetyState)
    ensures
        grows(st, st),
        grows(st, push_scope(st)),
        grows(st, pop_scope(st)),
        forall|n: Seq<char>| #[trigger] grows(st, mark_init(st, n)),
        forall|n: Seq<char>, p: PtrState| #[trigger] grows(st, set_state(st, n, p)),
        forall|n: Seq<char>| #[trigger] grows(st, free_step(st, n)),
{
    lemma_grows_append(st.errors, Seq::empty());
    lemma_grows_append(st.warnings, Seq::empty());
    if st.scopes.len() > 0 {
        lemma_grows_append(st.warnings, leaks(st.scopes.last(), st.allocs, st.scopes.last().len() as int));
    }
    assert forall|n: Seq<char>| #[trigger] grows(st, free_step(st, n)) by {
        lemma_grows_append(st.errors, seq![double_free_msg(n)]);
        lemma_grows_append(st.errors, seq![free_null_msg(n)]);
        assert(st.warnings.is_prefix_of(st.warnings.push(free_unknown_msg(n))));
    }
}

proof fn lemma_names_grow(st: SafetyState, ns: Seq<Seq<char>>)
    ensures
        grows(st, init_names(st, ns)),
    decreases ns.len(),
{
    lemma_simple_grows(st);
    if ns.len() > 0 {
        lemma_names_grow(st, ns.drop_last());
        let m = init_names(st, ns.drop_last());
        lemma_simple_grows(m);
        lemma_grows_trans(st, m, mark_init(m, ns.last()));
    }
}

proof fn lemma_params_grow(st: SafetyState, ps: Seq<(Seq<char>, SpecType)>)
    ensures
        grows(st, init_params(st, ps)),
    decreases ps.len(),
{
    lemma_simple_grows(st);
    if ps.len() > 0 {
        lemma_params_grow(st, ps.drop_last());
        let m = init_params(st, ps.drop_last());
        lemma_simple_grows(m);
        lemma_grows_trans(st, m, mark_init(m, ps.last().0));
    }
}

/// Checking any statement only adds messages: the errors and warnings
/// found before stay, in place.
pub proof fn law_messages_only_grow(st: SafetyState, s: SpecStmt)
    ensures
        st.errors.is_prefix_of(stmt_step(st, s).errors),
        st.warnings.is_prefix_of(stmt_step(st, s).warnings),
{
    lemma_stmt_grows(st, s);
}

#[verifier::rlimit(100)]
#[verifier::spinoff_prover]
proof fn lemma_stmt_grows(st: SafetyState, s: SpecStmt)
    ensures
        grows(st, stmt_step(st, s)),
    decreases s, 0int,
{
    lemma_simple_grows(st);
    match s {
        SpecStmt::VarDecl { name, value, .. } => {
            let a = check_expr_step(st, value);
            lemma_expr_grows(st, value);
            let b = mark_init(a, name);
            lemma_simple_grows(a);
            lemma_grows_trans(st, a, b);
            lemma_simple_grows(b);
            let c = track_decl(b, name, value);
            lemma_simple_grows(set_state(b, name, PtrState::MaybeNull));
            assert(grows(b, c)) by {
                match value {
                    SpecExpr::Call { func, .. } => {
                        match *func {
                            SpecExpr::Identifier(f) => {
                                let m = set_state(b, name, PtrState::MaybeNull);
                                assert(m.warnings.is_prefix_of(m.warnings.push(maybe_null_msg(name, f))));
                            },
                            _ => {},
                        }
                    },
                    SpecExpr::Alloc { .. } => {
                        let m = SafetyState { allocs: insert_name(b.allocs, name), ..b };
                        lemma_simple_grows(m);
                    },
                    _ => {},
                }
            }
            lemma_grows_trans(st, b, c);
        },
        SpecStmt::ConstDecl { name, .. } => {},
        SpecStmt::MultiAssign { names, .. } => lemma_names_grow(st, names),
        SpecStmt::Destructure { fields, .. } => lemma_names_grow(st, fields),
        SpecStmt::Free { ptr } => {},
        SpecStmt::Assign { name, value } => {
            let a = check_expr_step(st, value);
            lemma_expr_grows(st, value);
            lemma_simple_grows(a);
            let b = mark_init(a, name);
            lemma_grows_trans(st, a, b);
            lemma_simple_grows(b);
            lemma_grows_trans(st, b, set_state(b, name, PtrState::Null));
        },
        SpecStmt::Return(Some(e)) => {
            let a = check_expr_step(st, e);
            lemma_expr_grows(st, e);
            lemma_simple_grows(a);
            assert(grows(a, return_step(st, e))) by {
                match e {
                    SpecExpr::AddressOf(inner) => match *inner {
                        SpecExpr::Identifier(n) => {
                            lemma_grows_append(a.errors, seq![dangling_msg(n)]);
                        },
                        _ => {},
                    },
                    _ => {},
                }
            }
            lemma_grows_trans(st, a, return_step(st, e));
        },
        SpecStmt::TaskDecl { params, body, return_type, .. } => {
            let a = push_scope(SafetyState { ret: Some(return_type), ..st });
            lemma_simple_grows(SafetyState { ret: Some(return_type), ..st });
            let b = init_params(a, params);
            lemma_params_grow(a, params);
            lemma_block_grows(b, body);
            let c = block_step(b, body);
            lemma_simple_grows(c);
            lemma_grows_trans(a, b, c);
            lemma_grows_trans(a, c, pop_scope(c));
        },
        SpecStmt::Check { condition, then_block, else_block } => {
            let a0 = check_expr_step(st, condition);
            lemma_expr_grows(st, condition);
            lemma_simple_grows(a0);
            let a = push_scope(a0);
            lemma_simple_grows(a);
            let b = guarded_state(a, condition);
            match null_check_var(condition) {
                Some(v) => {},
                None => match null_eq_var(condition) {
                    Some(v) => lemma_simple_grows(a),
                    None => {},
                },
            }
            lemma_block_grows(b, then_block);
            let c = block_step(b, then_block);
            lemma_simple_grows(c);
            let d = pop_scope(c);
            lemma_grows_trans(b, c, d);
            lemma_grows_trans(a0, a, b);
            lemma_grows_trans(a0, b, d);
            lemma_grows_trans(st, a0, d);
            match else_block {
                Some(eb) => {
                    lemma_simple_grows(d);
                    let e1 = push_scope(d);
                    lemma_block_grows(e1, eb);
                    let e2 = block_step(e1, eb);
                    lemma_simple_grows(e2);
                    lemma_grows_trans(d, e1, e2);
                    lemma_grows_trans(d, e2, pop_scope(e2));
                    lemma_grows_trans(st, d, pop_scope(e2));
                },
                None => {},
            }
        },
        SpecStmt::Loop { kind, body } => {
            let a = match kind {
                SpecLoopKind::While(c) => push_scope(check_expr_step(st, c)),
                SpecLoopKind::Times(c) => push_scope(check_expr_step(st, c)),
                SpecLoopKind::FromTo { var, from, to } => mark_init(push_scope(check_expr_step(check_expr_step(st, from), to)), var),
                SpecLoopKind::ForEach { var, .. } => mark_init(push_scope(st), var),
                SpecLoopKind::Range { var, .. } => mark_init(push_scope(st), var),
                _ => push_scope(st),
            };
            assert(grows(st, a)) by {
                match kind {
                    SpecLoopKind::While(c) => {
                        lemma_expr_grows(st, c);
                        lemma_simple_grows(check_expr_step(st, c));
                        lemma_grows_trans(st, check_expr_step(st, c), a);
                    },
                    SpecLoopKind::Times(c) => {
                        lemma_expr_grows(st, c);
                        lemma_simple_grows(check_expr_step(st, c));
                        lemma_grows_trans(st, check_expr_step(st, c), a);
                    },
                    SpecLoopKind::FromTo { var, from, to } => {
                        let x = check_expr_step(st, from);
                        lemma_expr_grows(st, from);
                        let y = check_expr_step(x, to);
                        lemma_expr_grows(x, to);
                        lemma_simple_grows(y);
                        lemma_simple_grows(push_scope(y));
                        lemma_grows_trans(st, x, y);
                        lemma_grows_trans(st, y, push_scope(y));
                        lemma_grows_trans(st, push_scope(y), a);
                    },
                    SpecLoopKind::ForEach { var, .. } => {
                        lemma_simple_grows(push_scope(st));
                        lemma_grows_trans(st, push_scope(st), a);
                    },
                    SpecLoopKind::Range { var, .. } => {
                        lemma_simple_grows(push_scope(st));
                        lemma_grows_trans(st, push_scope(st), a);
                    },
                    _ => {},
                }
            }
            lemma_block_grows(a, body);
            let b = block_step(a, body);
            lemma_simple_grows(b);
            lemma_grows_trans(st, a, b);
            lemma_grows_trans(st, b, pop_scope(b));
        },
        SpecStmt::ExprStmt(e) => lemma_expr_grows(st, e),
        SpecStmt::Print(e) => lemma_expr_grows(st, e),
        SpecStmt::Override { body } => {
            let a = push_scope(st);
            lemma_block_grows(a, body);
            let b = block_step(a, body);
            lemma_simple_grows(b);
            lemma_grows_trans(st, a, b);
            lemma_grows_trans(st, b, pop_scope(b));
        },
        SpecStmt::ConstantTime { body } => {
            let a = push_scope(st);
            lemma_block_grows(a, body);
            let b = block_step(a, body);
            lemma_simple_grows(b);
            lemma_grows_trans(st, a, b);
            lemma_grows_trans(st, b, pop_scope(b));
        },
        SpecStmt::Assert { condition, .. } => {
            let a = check_expr_step(st, condition);
            lemma_expr_grows(st, condition);
            lemma_simple_grows(a);
            match null_check_var(condition) {
                Some(v) => lemma_grows_trans(st, a, set_state(a, v, PtrState::Live)),
                None => {},
            }
        },
        _ => {},
    }
}

proof fn lemma_block_grows(st: SafetyState, b: SpecBlock)
    ensures
        grows(st, block_step(st, b)),
    decreases b, 1int,
{
    lemma_stmts_grow(st, b.statements);
    let a = stmts_step(st, b.statements);
    match b.tail_expr {
        Some(e) => {
            lemma_expr_grows(a, e);
            lemma_grows_trans(st, a, check_expr_step(a, e));
        },
        None => {},
    }
}

proof fn lemma_stmts_grow(st: SafetyState, ss: Seq<SpecStmt>)
    ensures
        grows(st, stmts_step(st, ss)),
    decreases ss, 0int,
{
    lemma_simple_grows(st);
    if ss.len() > 0 {
        lemma_stmts_grow(st, ss.drop_last());
        let a = stmts_step(st, ss.drop_last());
        lemma_stmt_grows(a, ss.last());
        lemma_grows_trans(st, a, stmt_step(a, ss.last()));
    }
}

/// The frame of the analyzer around a statement: as many scopes of both
/// kinds, the same enclosing return type, and every scope but the
/// innermost untouched.
pub open spec fn frame_kept(a: SafetyState, b: SafetyState) -> bool {
    &&& b.scopes.len() == a.scopes.len()
    &&& b.inits.len() == a.inits.len()
    &&& b.ret == a.ret
    &&& forall|i: int| 0 <= i < a.scopes.len() - 1 ==> #[trigger] b.scopes[i] == a.scopes[i]
    &&& forall|i: int| 0 <= i < a.inits.len() - 1 ==> #[trigger] b.inits[i] == a.inits[i]
}

pub open spec fn has_frame(st: SafetyState) -> bool {
    st.scopes.len() >= 1 && st.inits.len() >= 1
}

proof fn lemma_simple_frame(st: SafetyState)
    requires
        has_frame(st),
    ensures
        frame_kept(st, st),
        forall|n: Seq<char>, p: PtrState| #[trigger] frame_kept(st, set_state(st, n, p)),
        forall|n: Seq<char>| #[trigger] frame_kept(st, mark_init(st, n)),
        forall|e: SpecExpr| #[trigger] frame_kept(st, check_expr_step(st, e)),
        forall|n: Seq<char>| #[trigger] frame_kept(st, free_step(st, n)),
        forall|e: SpecExpr| #[trigger] frame_kept(st, return_step(st, e)),
        forall|c: SpecExpr| #[trigger] frame_kept(st, guarded_state(st, c)),
{
    assert forall|n: Seq<char>| #[trigger] frame_kept(st, free_step(st, n)) by {
        let s0 = state_of(st.scopes, n);
        let st1 = if s0 == PtrState::Freed {
            add_errors(st, seq![double_free_msg(n)])
        } else if s0 == PtrState::Null {
            add_errors(st, seq![free_null_msg(n)])
        } else if s0 == PtrState::Unknown {
            SafetyState { warnings: st.warnings.push(free_unknown_msg(n)), ..st }
        } else {
            st
        };
        assert(frame_kept(st1, set_state(st1, n, PtrState::Freed)));
    }
    assert forall|e: SpecExpr| #[trigger] frame_kept(st, return_step(st, e)) by {
        let st1 = check_expr_step(st, e);
        assert(frame_kept(st, st1));
    }
}

proof fn lemma_decl_frame(st: SafetyState, name: Seq<char>, value: SpecExpr)
    requires
        has_frame(st),
    ensures
        frame_kept(st, track_decl(st, name, value)),
{
    lemma_simple_frame(st);
    let st2 = SafetyState { allocs: insert_name(st.allocs, name), ..st };
    lemma_simple_frame(st2);
    assert(frame_kept(st2, set_state(st2, name, PtrState::Live)));
}

proof fn lemma_names_frame(st: SafetyState, ns: Seq<Seq<char>>)
    requires
        has_frame(st),
    ensures
        frame_kept(st, init_names(st, ns)),
        has_frame(init_names(st, ns)),
    decreases ns.len(),
{
    if ns.len() > 0 {
        lemma_names_frame(st, ns.drop_last());
        let a = init_names(st, ns.drop_last());
        lemma_simple_frame(a);
        assert(frame_kept(a, mark_init(a, ns.last())));
    }
}

proof fn lemma_params_frame(st: SafetyState, ps: Seq<(Seq<char>, SpecType)>)
    requires
        has_frame(st),
    ensures
        frame_kept(st, init_params(st, ps)),
        has_frame(init_params(st, ps)),
    decreases ps.len(),
{
    if ps.len() > 0 {
        lemma_params_frame(st, ps.drop_last());
        let a = init_params(st, ps.drop_last());
        lemma_simple_frame(a);
        assert(frame_kept(a, mark_init(a, ps.last().0)));
    }
}

/// A scope pushed and popped around work that keeps its frame leaves the
/// scopes as they were.
proof fn lemma_push_pop(x: SafetyState, y: SafetyState)
    requires
        has_frame(x),
        frame_kept(push_scope(x), y),
    ensures
        pop_scope(y).scopes == x.scopes,
        pop_scope(y).inits == x.inits,
        pop_scope(y).ret == x.ret,
        frame_kept(x, pop_scope(y)),
{
    let px = push_scope(x);
    assert forall|i: int| 0 <= i < x.scopes.len() implies #[trigger] y.scopes[i] == x.scopes[i] by {
        assert(px.scopes[i] == x.scopes[i]);
    }
    assert forall|i: int| 0 <= i < x.inits.len() implies #[trigger] y.inits[i] == x.inits[i] by {
        assert(px.inits[i] == x.inits[i]);
    }
    assert(pop_scope(y).scopes =~= x.scopes);
    assert(pop_scope(y).inits =~= x.inits);
}

proof fn lemma_frame_trans(a: SafetyState, b: SafetyState, c: SafetyState)
    requires
        frame_kept(a, b),
        frame_kept(b, c),
    ensures
        frame_kept(a, c),
{
    assert forall|i: int| 0 <= i < a.scopes.len() - 1 implies #[trigger] c.scopes[i] == a.scopes[i] by {
        assert(b.scopes[i] == a.scopes[i]);
    }
    assert forall|i: int| 0 <= i < a.inits.len() - 1 implies #[trigger] c.inits[i] == a.inits[i] by {
        assert(b.inits[i] == a.inits[i]);
    }
}

proof fn lemma_frame_has(a: SafetyState, b: SafetyState)
    requires
        has_frame(a),
        frame_kept(a, b),
    ensures
        has_frame(b),
{
}

/// Checking a statement pops every scope it pushes and restores the
/// enclosing return type: the number of scopes, the return type and every
/// scope but the innermost are as before.
pub proof fn law_statement_keeps_frame(st: SafetyState, s: SpecStmt)
    requires
        has_frame(st),
    ensures
        frame_kept(st, stmt_step(st, s)),
    decreases s, 0int,
{
    lemma_simple_frame(st);
    match s {
        SpecStmt::VarDecl { name, value, .. } => {
            let a = check_expr_step(st, value);
            lemma_simple_frame(a);
            let b = mark_init(a, name);
            lemma_frame_trans(st, a, b);
            lemma_decl_frame(b, name, value);
            lemma_frame_trans(st, b, track_decl(b, name, value));
        },
        SpecStmt::MultiAssign { names, .. } => lemma_names_frame(st, names),
        SpecStmt::Destructure { fields, .. } => lemma_names_frame(st, fields),
        SpecStmt::Assign { name, value } => {
            let a = check_expr_step(st, value);
            lemma_simple_frame(a);
            let b = mark_init(a, name);
            lemma_frame_trans(st, a, b);
            lemma_simple_frame(b);
            lemma_frame_trans(st, b, set_state(b, name, PtrState::Null));
        },
        SpecStmt::TaskDecl { params, body, return_type, .. } => {
            let x = SafetyState { ret: Some(return_type), ..st };
            let st1 = push_scope(x);
            lemma_params_frame(st1, params);
            let st2 = init_params(st1, params);
            lemma_block_frame(st2, body);
            lemma_frame_trans(st1, st2, block_step(st2, body));
            lemma_push_pop(x, block_step(st2, body));
        },
        SpecStmt::Check { condition, then_block, else_block } => {
            let a = check_expr_step(st, condition);
            lemma_simple_frame(a);
            let b = push_scope(a);
            lemma_simple_frame(b);
            let c = guarded_state(b, condition);
            lemma_block_frame(c, then_block);
            lemma_frame_trans(b, c, block_step(c, then_block));
            lemma_push_pop(a, block_step(c, then_block));
            let d = pop_scope(block_step(c, then_block));
            lemma_frame_trans(st, a, d);
            match else_block {
                Some(eb) => {
                    lemma_frame_has(st, d);
                    let e = push_scope(d);
                    lemma_block_frame(e, eb);
                    lemma_push_pop(d, block_step(e, eb));
                    lemma_frame_trans(st, d, pop_scope(block_step(e, eb)));
                },
                None => {},
            }
        },
        SpecStmt::Loop { kind, body } => {
            match kind {
                SpecLoopKind::While(c) => {
                    let a = check_expr_step(st, c);
                    lemma_simple_frame(a);
                    lemma_block_frame(push_scope(a), body);
                    lemma_push_pop(a, block_step(push_scope(a), body));
                    lemma_frame_trans(st, a, pop_scope(block_step(push_scope(a), body)));
                },
                SpecLoopKind::Times(c) => {
                    let a = check_expr_step(st, c);
                    lemma_simple_frame(a);
                    lemma_block_frame(push_scope(a), body);
                    lemma_push_pop(a, block_step(push_scope(a), body));
                    lemma_frame_trans(st, a, pop_scope(block_step(push_scope(a), body)));
                },
                SpecLoopKind::FromTo { var, from, to } => {
                    let a0 = check_expr_step(st, from);
                    lemma_simple_frame(a0);
                    let a = check_expr_step(a0, to);
                    lemma_frame_trans(st, a0, a);
                    lemma_simple_frame(a);
                    let p = push_scope(a);
                    lemma_simple_frame(p);
                    let m = mark_init(p, var);
                    lemma_block_frame(m, body);
                    lemma_frame_trans(p, m, block_step(m, body));
                    lemma_push_pop(a, block_step(m, body));
                    lemma_frame_trans(st, a, pop_scope(block_step(m, body)));
                },
                SpecLoopKind::ForEach { var, .. } => {
                    let p = push_scope(st);
                    lemma_simple_frame(p);
                    let m = mark_init(p, var);
                    lemma_block_frame(m, body);
                    lemma_frame_trans(p, m, block_step(m, body));
                    lemma_push_pop(st, block_step(m, body));
                },
                SpecLoopKind::Range { var, .. } => {
                    let p = push_scope(st);
                    lemma_simple_frame(p);
                    let m = mark_init(p, var);
                    lemma_block_frame(m, body);
                    lemma_frame_trans(p, m, block_step(m, body));
                    lemma_push_pop(st, block_step(m, body));
                },
                _ => {
                    lemma_block_frame(push_scope(st), body);
                    lemma_push_pop(st, block_step(push_scope(st), body));
                },
            }
        },
        SpecStmt::Override { body } => {
            lemma_block_frame(push_scope(st), body);
            lemma_push_pop(st, block_step(push_scope(st), body));
        },
        SpecStmt::ConstantTime { body } => {
            lemma_block_frame(push_scope(st), body);
            lemma_push_pop(st, block_step(push_scope(st), body));
        },
        SpecStmt::Assert { condition, .. } => {
            let a = check_expr_step(st, condition);
            lemma_simple_frame(a);
            match null_check_var(condition) {
                Some(v) => lemma_frame_trans(st, a, set_state(a, v, PtrState::Live)),
                None => {},
            }
        },
        _ => {},
    }
}

proof fn lemma_block_frame(st: SafetyState, b: SpecBlock)
    requires
        has_frame(st),
    ensures
        frame_kept(st, block_step(st, b)),
    decreases b, 1int,
{
    lemma_stmts_frame(st, b.statements);
    let a = stmts_step(st, b.statements);
    match b.tail_expr {
        Some(e) => {
            lemma_frame_has(st, a);
            lemma_simple_frame(a);
            lemma_frame_trans(st, a, check_expr_step(a, e));
        },
        None => {},
    }
}

proof fn lemma_stmts_frame(st: SafetyState, ss: Seq<SpecStmt>)
    requires
        has_frame(st),
    ensures
        frame_kept(st, stmts_step(st, ss)),
    decreases ss, 0int,
{
    lemma_simple_frame(st);
    if ss.len() > 0 {
        lemma_stmts_frame(st, ss.drop_last());
        let a = stmts_step(st, ss.drop_last());
        lemma_frame_has(st, a);
        law_statement_keeps_frame(a, ss.last());
        lemma_frame_trans(st, a, stmt_step(a, ss.last()));
    }
}

/// Freeing a pointer just declared null is an error: in any state with an
/// open scope, after `set p = null`, `free p` adds exactly the error
/// "Free of null pointer: 'p' is null" and nothing else to the errors.
pub proof fn law_free_of_declared_null(st: SafetyState, p: Seq<char>, ty: Option<SpecType>, sensitive: bool)
    requires
        has_frame(st),
    ensures
        ({
            let a = stmt_step(st, SpecStmt::VarDecl { name: p, ty, value: SpecExpr::Null, sensitive });
            stmt_step(a, SpecStmt::Free { ptr: SpecExpr::Identifier(p) }).errors == a.errors.push(
                "Free of null pointer: '"@ + p + "' is null"@,
            )
        }),
{
    let a0 = mark_init(check_expr_step(st, SpecExpr::Null), p);
    let a = stmt_step(st, SpecStmt::VarDecl { name: p, ty, value: SpecExpr::Null, sensitive });
    assert(a == set_state(a0, p, PtrState::Null));
    assert(a0.scopes == st.scopes);
    assert(a.scopes.last() == a0.scopes.last().push((p, PtrState::Null)));
    assert(scope_state(a.scopes.last(), p) == Some(PtrState::Null));
    assert(state_of(a.scopes, p) == PtrState::Null);
}

/// Dereferencing a pointer just declared null is an error: after
/// `set p = null`, reading `*p` adds exactly "Null dereference: 'p' is known
/// to be null" to the errors.
pub proof fn law_deref_of_declared_null(st: SafetyState, p: Seq<char>, ty: Option<SpecType>, sensitive: bool)
    requires
        has_frame(st),
    ensures
        ({
            let a = stmt_step(st, SpecStmt::VarDecl { name: p, ty, value: SpecExpr::Null, sensitive });
            stmt_step(a, SpecStmt::ExprStmt(SpecExpr::Deref(Box::new(SpecExpr::Identifier(p))))).errors == a.errors.push(
                "Null dereference: '"@ + p + "' is known to be null"@,
            )
        }),
{
    let a0 = mark_init(check_expr_step(st, SpecExpr::Null), p);
    let a = stmt_step(st, SpecStmt::VarDecl { name: p, ty, value: SpecExpr::Null, sensitive });
    assert(a == set_state(a0, p, PtrState::Null));
    assert(a.scopes.last() == a0.scopes.last().push((p, PtrState::Null)));
    assert(scope_state(a.scopes.last(), p) == Some(PtrState::Null));
    assert(state_of(a.scopes, p) == PtrState::Null);
    let e = SpecExpr::Deref(Box::new(SpecExpr::Identifier(p)));
    let inner = expr_errors(a.scopes, a.freed, SpecExpr::Identifier(p));
    assert(inner =~= Seq::<Seq<char>>::empty());
    assert(expr_errors(a.scopes, a.freed, e) =~= seq![null_deref_msg(p)]);
}

} // verus!
