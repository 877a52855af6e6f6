//! The EVM smart-contract target: bytecode emission, the contract's ABI
//! description, and the extra checks a contract must pass.
use vstd::prelude::*;
use crate::ast::{Program, Stmt, Block, Expr, Type, SpecStmt, SpecBlock, SpecExpr, SpecType, stmts_view, typed_names_view, lemma_stmts_view};
use crate::text::{concat3, str_eq};

verus! {

pub struct EvmCompiler {
    pub bytecode: Vec<u8>,
    pub abi: Vec<AbiEntry>,
}

/// One function of a contract's interface.
pub struct AbiEntry {
    pub name: String,
    pub inputs: Vec<AbiParam>,
    pub outputs: Vec<AbiParam>,
}

/// One parameter or result of an interface function.
pub struct AbiParam {
    pub name: String,
    pub ty: String,
}

/// `{"name":"...","type":"..."}` for one parameter.
pub open spec fn param_json(p: AbiParam) -> Seq<char> {
    "{\"name\":\""@ + p.name@ + "\",\"type\":\""@ + p.ty@ + "\"}"@
}

/// The pieces joined by commas.
pub open spec fn comma_joined(parts: Seq<Seq<char>>) -> Seq<char>
    decreases parts.len(),
{
    if parts.len() == 0 {
        Seq::empty()
    } else if parts.len() == 1 {
        parts[0]
    } else {
        comma_joined(parts.drop_last()) + ","@ + parts.last()
    }
}

pub open spec fn params_json(ps: Seq<AbiParam>) -> Seq<char> {
    comma_joined(ps.map_values(|p: AbiParam| param_json(p)))
}

pub open spec fn entry_json(e: AbiEntry) -> Seq<char> {
    "{\"name\":\""@ + e.name@ + "\",\"type\":\"function\",\"inputs\":["@ + params_json(e.inputs@)
        + "],\"outputs\":["@ + params_json(e.outputs@) + "]}"@
}

/// The ABI as a JSON array of its functions.
pub open spec fn abi_json(es: Seq<AbiEntry>) -> Seq<char> {
    "["@ + comma_joined(es.map_values(|e: AbiEntry| entry_json(e))) + "]"@
}

/// The dispatcher prologue: `PUSH1 0x00, CALLDATALOAD, PUSH1 0xe0, SHR`.
pub open spec fn contract_header() -> Seq<u8> {
    seq![0x60u8, 0x00u8, 0x35u8, 0x60u8, 0xe0u8, 0x1cu8]
}

proof fn lemma_comma_joined_push(parts: Seq<Seq<char>>, x: Seq<char>)
    ensures
        comma_joined(parts.push(x)) == if parts.len() == 0 { x } else { comma_joined(parts) + ","@ + x },
{
    assert(parts.push(x).drop_last() =~= parts);
    if parts.len() == 0 {
        assert(parts.push(x)[0] == x);
    }
}

fn params_to_json(ps: &Vec<AbiParam>) -> (r: String)
    ensures
        r@ == params_json(ps@),
{
    let mut out = String::new();
    let mut i: usize = 0;
    while i < ps.len()
        invariant
            i <= ps@.len(),
            out@ == comma_joined(ps@.take(i as int).map_values(|p: AbiParam| param_json(p))),
        decreases ps.len() - i,
    {
        proof {
            let m = ps@.take(i as int).map_values(|p: AbiParam| param_json(p));
            assert(ps@.take(i + 1).map_values(|p: AbiParam| param_json(p)) =~= m.push(param_json(ps@[i as int])));
            lemma_comma_joined_push(m, param_json(ps@[i as int]));
        }
        if i > 0 {
            out.append(",");
        }
        out.append("{\"name\":\"");
        out.append(ps[i].name.as_str());
        out.append("\",\"type\":\"");
        out.append(ps[i].ty.as_str());
        out.append("\"}");
        i = i + 1;
    }
    proof {
        assert(ps@.take(ps@.len() as int) =~= ps@);
    }
    out
}

/// The checked addition: `DUP2 DUP2 ADD DUP1 DUP4 GT ISZERO`, `PUSH2 dest`,
/// `JUMPI` (on to `dest` when `a > s` is false), then `PUSH1 0 PUSH1 0
/// REVERT`; at `dest`, `JUMPDEST SWAP2 POP POP` leaves the sum alone on the
/// stack. `dest` is where the `JUMPDEST` lands.
pub open spec fn overflow_check_code(dest: int) -> Seq<u8> {
    seq![
        0x81u8, 0x81u8, 0x01u8, 0x80u8, 0x83u8, 0x11u8, 0x15u8, 0x61u8, (dest / 256) as u8, (dest % 256) as u8,
        0x57u8, 0x60u8, 0x00u8, 0x60u8, 0x00u8, 0xfdu8, 0x5bu8, 0x91u8, 0x50u8, 0x50u8,
    ]
}

impl EvmCompiler {
    pub fn new() -> (r: EvmCompiler)
        ensures
            r.bytecode@.len() == 0,
            r.abi@.len() == 0,
    {
        EvmCompiler { bytecode: Vec::new(), abi: Vec::new() }
    }

    fn emit(&mut self, op: u8)
        ensures
            final(self).bytecode@ == old(self).bytecode@.push(op),
            final(self).abi@ == old(self).abi@,
    {
        self.bytecode.push(op);
    }

    fn push1(&mut self, val: u8)
        ensures
            final(self).bytecode@ == old(self).bytecode@.push(0x60).push(val),
            final(self).abi@ == old(self).abi@,
    {
        self.emit(0x60);
        self.emit(val);
    }

    fn push32(&mut self, val: [u8; 32])
        ensures
            final(self).bytecode@ == old(self).bytecode@.push(0x7f) + val@,
    {
        self.emit(0x7f);
        let mut i: usize = 0;
        while i < 32
            invariant
                i <= 32,
                self.bytecode@ == old(self).bytecode@.push(0x7f) + val@.take(i as int),
            decreases 32 - i,
        {
            proof {
                assert(val@.take(i + 1) =~= val@.take(i as int).push(val@[i as int]));
            }
            self.emit(val[i]);
            proof {
                assert(old(self).bytecode@.push(0x7f) + val@.take(i + 1) =~= (old(self).bytecode@.push(0x7f) + val@.take(i as int)).push(val@[i as int]));
            }
            i = i + 1;
        }
        proof {
            assert(val@.take(32) =~= val@);
        }
    }

    fn add(&mut self) {
        self.emit(0x01);
    }

    fn sub(&mut self) {
        self.emit(0x03);
    }

    fn mul(&mut self) {
        self.emit(0x02);
    }

    fn div(&mut self) {
        self.emit(0x04);
    }

    fn eq(&mut self) {
        self.emit(0x14);
    }

    fn lt(&mut self) {
        self.emit(0x10);
    }

    fn gt(&mut self) {
        self.emit(0x11);
    }

    /// Loads from storage.
    fn sload(&mut self) {
        self.emit(0x54);
    }

    /// Stores to storage.
    fn sstore(&mut self) {
        self.emit(0x55);
    }

    fn mload(&mut self) {
        self.emit(0x51);
    }

    fn mstore(&mut self) {
        self.emit(0x52);
    }

    fn calldataload(&mut self)
        ensures
            final(self).bytecode@ == old(self).bytecode@.push(0x35),
            final(self).abi@ == old(self).abi@,
    {
        self.emit(0x35);
    }

    fn ret(&mut self) {
        self.emit(0xf3);
    }

    fn revert(&mut self) {
        self.emit(0xfd);
    }

    fn stop(&mut self) {
        self.emit(0x00);
    }

    fn jumpi(&mut self) {
        self.emit(0x57);
    }

    fn jump(&mut self) {
        self.emit(0x56);
    }

    fn jumpdest(&mut self) {
        self.emit(0x5b);
    }

    fn dup1(&mut self)
        ensures
            final(self).bytecode@ == old(self).bytecode@.push(0x80),
    {
        self.emit(0x80);
    }

    fn swap1(&mut self) {
        self.emit(0x90);
    }

    fn pop(&mut self) {
        self.emit(0x50);
    }

    /// A checked addition of the two words on top of the stack `[a, b]`:
    /// their sum `s` is computed; when `s < a` (the addition wrapped) the
    /// code reverts, otherwise it jumps past the revert and leaves `[s]`.
    fn emit_overflow_check_add(&mut self)
        requires
            old(self).bytecode@.len() + 16 <= 0xffff,
        ensures
            final(self).bytecode@ == old(self).bytecode@ + overflow_check_code(old(self).bytecode@.len() as int + 16),
            final(self).abi@ == old(self).abi@,
    {
        let dest: usize = self.bytecode.len() + 16;
        self.emit(0x81);
        self.emit(0x81);
        self.emit(0x01);
        self.emit(0x80);
        self.emit(0x83);
        self.emit(0x11);
        self.emit(0x15);
        self.emit(0x61);
        self.emit((dest / 256) as u8);
        self.emit((dest % 256) as u8);
        self.emit(0x57);
        self.push1(0x00);
        self.push1(0x00);
        self.emit(0xfd);
        self.emit(0x5b);
        self.emit(0x91);
        self.emit(0x50);
        self.emit(0x50);
        proof {
            assert(self.bytecode@ =~= old(self).bytecode@ + overflow_check_code(dest as int));
        }
    }

    /// The standard dispatcher prologue: the function selector, read from
    /// the first four bytes of the call data.
    pub fn emit_contract_header(&mut self)
        ensures
            final(self).bytecode@ == old(self).bytecode@ + contract_header(),
            final(self).abi@ == old(self).abi@,
    {
        self.push1(0x00);
        self.calldataload();
        self.push1(0xe0);
        self.emit(0x1c);
        proof {
            assert(self.bytecode@ =~= old(self).bytecode@ + contract_header());
        }
    }

    /// The contract's ABI as JSON.
    pub fn generate_abi(&self) -> (r: String)
        ensures
            r@ == abi_json(self.abi@),
    {
        let mut out = String::from_str("[");
        let mut i: usize = 0;
        while i < self.abi.len()
            invariant
                i <= self.abi@.len(),
                out@ == "["@ + comma_joined(self.abi@.take(i as int).map_values(|e: AbiEntry| entry_json(e))),
            decreases self.abi.len() - i,
        {
            proof {
                let m = self.abi@.take(i as int).map_values(|e: AbiEntry| entry_json(e));
                assert(self.abi@.take(i + 1).map_values(|e: AbiEntry| entry_json(e)) =~= m.push(entry_json(self.abi@[i as int])));
                lemma_comma_joined_push(m, entry_json(self.abi@[i as int]));
            }
            if i > 0 {
                out.append(",");
            }
            let e = &self.abi[i];
            out.append("{\"name\":\"");
            out.append(e.name.as_str());
            out.append("\",\"type\":\"function\",\"inputs\":[");
            out.append(params_to_json(&e.inputs).as_str());
            out.append("],\"outputs\":[");
            out.append(params_to_json(&e.outputs).as_str());
            out.append("]}");
            i = i + 1;
        }
        proof {
            assert(self.abi@.take(self.abi@.len() as int) =~= self.abi@);
        }
        out.append("]");
        out
    }
}

/// The expression a statement evaluates at its own level: the value of a
/// declaration or an assignment, a condition, what is printed, returned or
/// evaluated for its effect.
pub open spec fn stmt_expr(s: SpecStmt) -> Option<SpecExpr> {
    match s {
        SpecStmt::VarDecl { value, .. } => Some(value),
        SpecStmt::ConstDecl { value, .. } => Some(value),
        SpecStmt::Assign { value, .. } => Some(value),
        SpecStmt::CompoundAssign { value, .. } => Some(value),
        SpecStmt::FieldAssign { value, .. } => Some(value),
        SpecStmt::IndexAssign { value, .. } => Some(value),
        SpecStmt::Check { condition, .. } => Some(condition),
        SpecStmt::Assert { condition, .. } => Some(condition),
        SpecStmt::Print(e) => Some(e),
        SpecStmt::ExprStmt(e) => Some(e),
        SpecStmt::Return(Some(e)) => Some(e),
        _ => None,
    }
}

/// A statement whose expression is a call: control leaves the task.
pub open spec fn is_call_stmt(s: SpecStmt) -> bool {
    stmt_expr(s) matches Some(SpecExpr::Call { .. })
}

/// The variable a statement writes to, if it is an assignment.
pub open spec fn assigned_name(s: SpecStmt) -> Option<Seq<char>> {
    match s {
        SpecStmt::Assign { name, .. } => Some(name),
        SpecStmt::CompoundAssign { name, .. } => Some(name),
        SpecStmt::FieldAssign { object, .. } => Some(object),
        SpecStmt::IndexAssign { array, .. } => Some(array),
        _ => None,
    }
}

/// The variable a statement declares, if it is a declaration.
pub open spec fn declared_name(s: SpecStmt) -> Option<Seq<char>> {
    match s {
        SpecStmt::VarDecl { name, .. } => Some(name),
        SpecStmt::ConstDecl { name, .. } => Some(name),
        _ => None,
    }
}

/// A name that belongs to the task itself: a parameter, or a variable
/// declared among the body's statements.
pub open spec fn is_local(ps: Seq<(Seq<char>, SpecType)>, ss: Seq<SpecStmt>, n: Seq<char>) -> bool {
    (exists|k: int| 0 <= k < ps.len() && #[trigger] ps[k].0 == n)
        || (exists|k: int| 0 <= k < ss.len() && #[trigger] declared_name(ss[k]) == Some(n))
}

/// An assignment to contract state: to a name that is not the task's own.
pub open spec fn changes_state(ps: Seq<(Seq<char>, SpecType)>, ss: Seq<SpecStmt>, s: SpecStmt) -> bool {
    assigned_name(s) matches Some(n) && !is_local(ps, ss, n)
}

/// Whether, among the statements of a task body, a call comes before a
/// change of contract state.
pub open spec fn external_call_before_state_change(ps: Seq<(Seq<char>, SpecType)>, b: SpecBlock) -> bool {
    exists|i: int, j: int|
        0 <= i < j < b.statements.len() && #[trigger] is_call_stmt(b.statements[i])
            && #[trigger] changes_state(ps, b.statements, b.statements[j])
}

/// Whether an expression reads `block.timestamp`, looking through field
/// access, operators and casts.
pub open spec fn mentions_timestamp(e: SpecExpr) -> bool
    decreases e,
{
    match e {
        SpecExpr::FieldAccess { object, field } => {
            (match *object {
                SpecExpr::Identifier(n) => n == "block"@ && field == "timestamp"@,
                _ => false,
            }) || mentions_timestamp(*object)
        },
        SpecExpr::BinaryOp { left, right, .. } => mentions_timestamp(*left) || mentions_timestamp(*right),
        SpecExpr::UnaryOp { operand, .. } => mentions_timestamp(*operand),
        SpecExpr::Cast { expr, .. } => mentions_timestamp(*expr),
        _ => false,
    }
}

/// Whether a statement of a task body reads the block timestamp.
pub open spec fn reads_timestamp(b: SpecBlock) -> bool {
    exists|i: int|
        0 <= i < b.statements.len() && (#[trigger] stmt_expr(b.statements[i]) matches Some(e) && mentions_timestamp(e))
}

pub open spec fn reentrancy_msg(n: Seq<char>) -> Seq<char> {
    "Potential reentrancy in '"@ + n + "': external call before state change.\n  Sovereign blocks this. Move state changes before external calls."@
}

pub open spec fn timestamp_msg(n: Seq<char>) -> Seq<char> {
    "Timestamp dependence in '"@ + n + "': block.timestamp can be manipulated by miners."@
}

/// The contract errors of the statements, in order.
pub open spec fn contract_errors(ss: Seq<SpecStmt>) -> Seq<Seq<char>>
    decreases ss.len(),
{
    if ss.len() == 0 {
        Seq::empty()
    } else {
        let rest = contract_errors(ss.drop_last());
        match ss.last() {
            SpecStmt::TaskDecl { name, params, body, .. } => {
                let r1 = if external_call_before_state_change(params, body) { rest.push(reentrancy_msg(name)) } else { rest };
                if reads_timestamp(body) { r1.push(timestamp_msg(name)) } else { r1 }
            },
            _ => rest,
        }
    }
}

fn stmt_expr_of(s: &Stmt) -> (r: Option<&Expr>)
    ensures
        r matches Some(e) ==> stmt_expr(s@) == Some(e@),
        r is None ==> stmt_expr(s@) is None,
{
    match s {
        Stmt::VarDecl { value, .. } => Some(value),
        Stmt::ConstDecl { value, .. } => Some(value),
        Stmt::Assign { value, .. } => Some(value),
        Stmt::CompoundAssign { value, .. } => Some(value),
        Stmt::FieldAssign { value, .. } => Some(value),
        Stmt::IndexAssign { value, .. } => Some(value),
        Stmt::Check { condition, .. } => Some(condition),
        Stmt::Assert { condition, .. } => Some(condition),
        Stmt::Print(e) => Some(e),
        Stmt::ExprStmt(e) => Some(e),
        Stmt::Return(Some(e)) => Some(e),
        _ => None,
    }
}

fn is_call_stmt_exec(s: &Stmt) -> (r: bool)
    ensures
        r == is_call_stmt(s@),
{
    match stmt_expr_of(s) {
        Some(Expr::Call { .. }) => true,
        _ => false,
    }
}

fn assigned_name_of(s: &Stmt) -> (r: Option<&String>)
    ensures
        r matches Some(n) ==> assigned_name(s@) == Some(n@),
        r is None ==> assigned_name(s@) is None,
{
    match s {
        Stmt::Assign { name, .. } => Some(name),
        Stmt::CompoundAssign { name, .. } => Some(name),
        Stmt::FieldAssign { object, .. } => Some(object),
        Stmt::IndexAssign { array, .. } => Some(array),
        _ => None,
    }
}

fn declares(s: &Stmt, n: &str) -> (r: bool)
    ensures
        r == (declared_name(s@) == Some(n@)),
{
    match s {
        Stmt::VarDecl { name, .. } => str_eq(name.as_str(), n),
        Stmt::ConstDecl { name, .. } => str_eq(name.as_str(), n),
        _ => false,
    }
}

fn is_local_name(params: &Vec<(String, Type)>, ss: &Vec<Stmt>, n: &str) -> (r: bool)
    ensures
        r == is_local(typed_names_view(params@), stmts_view(ss@), n@),
{
    let ghost ps = typed_names_view(params@);
    let ghost sv = stmts_view(ss@);
    proof {
        lemma_stmts_view(ss@);
    }
    let mut k: usize = 0;
    while k < params.len()
        invariant
            k <= params@.len(),
            ps == typed_names_view(params@),
            forall|q: int| 0 <= q < k ==> ps[q].0 != n@,
        decreases params.len() - k,
    {
        if str_eq(params[k].0.as_str(), n) {
            assert(ps[k as int].0 == n@);
            return true;
        }
        k = k + 1;
    }
    let mut k: usize = 0;
    while k < ss.len()
        invariant
            k <= ss@.len(),
            sv == stmts_view(ss@),
            sv.len() == ss@.len(),
            forall|q: int| 0 <= q < ss@.len() ==> #[trigger] sv[q] == ss@[q]@,
            forall|q: int| 0 <= q < k ==> declared_name(#[trigger] sv[q]) != Some(n@),
        decreases ss.len() - k,
    {
        if declares(&ss[k], n) {
            assert(declared_name(sv[k as int]) == Some(n@));
            return true;
        }
        k = k + 1;
    }
    false
}

fn has_external_call_before_state_change(params: &Vec<(String, Type)>, body: &Block) -> (r: bool)
    ensures
        r == external_call_before_state_change(typed_names_view(params@), body@),
{
    let ss = &body.statements;
    let ghost ps = typed_names_view(params@);
    let ghost sv = stmts_view(ss@);
    proof {
        lemma_stmts_view(ss@);
        assert(body@.statements == sv);
    }
    let mut seen_call = false;
    let mut j: usize = 0;
    while j < ss.len()
        invariant
            j <= ss@.len(),
            sv == stmts_view(ss@),
            sv == body@.statements,
            ps == typed_names_view(params@),
            sv.len() == ss@.len(),
            forall|q: int| 0 <= q < ss@.len() ==> #[trigger] sv[q] == ss@[q]@,
            seen_call <==> exists|a: int| 0 <= a < j && #[trigger] is_call_stmt(sv[a]),
            forall|a: int, b: int| 0 <= a < b < j ==> !(#[trigger] is_call_stmt(sv[a]) && #[trigger] changes_state(ps, sv, sv[b])),
        decreases ss.len() - j,
    {
        let st = &ss[j];
        if seen_call {
            match assigned_name_of(st) {
                Some(n) => {
                    if !is_local_name(params, ss, n.as_str()) {
                        proof {
                            let a = choose|a: int| 0 <= a < j && #[trigger] is_call_stmt(sv[a]);
                            assert(changes_state(ps, sv, sv[j as int]));
                            assert(is_call_stmt(body@.statements[a]) && changes_state(ps, body@.statements, body@.statements[j as int]));
                        }
                        return true;
                    }
                },
                None => {},
            }
        }
        proof {
            assert(seen_call || forall|a: int| 0 <= a < j ==> !is_call_stmt(#[trigger] sv[a]));
            assert(!(seen_call && changes_state(ps, sv, sv[j as int])));
        }
        if is_call_stmt_exec(st) {
            seen_call = true;
            proof {
                assert(is_call_stmt(sv[j as int]));
            }
        }
        j = j + 1;
    }
    false
}

fn mentions_timestamp_exec(e: &Expr) -> (r: bool)
    ensures
        r == mentions_timestamp(e@),
    decreases e,
{
    match e {
        Expr::FieldAccess { object, field } => {
            let direct = match &**object {
                Expr::Identifier(n) => str_eq(n.as_str(), "block") && str_eq(field.as_str(), "timestamp"),
                _ => false,
            };
            direct || mentions_timestamp_exec(object)
        },
        Expr::BinaryOp { left, right, .. } => mentions_timestamp_exec(left) || mentions_timestamp_exec(right),
        Expr::UnaryOp { operand, .. } => mentions_timestamp_exec(operand),
        Expr::Cast { expr, .. } => mentions_timestamp_exec(expr),
        _ => false,
    }
}

fn uses_timestamp(body: &Block) -> (r: bool)
    ensures
        r == reads_timestamp(body@),
{
    let ss = &body.statements;
    let ghost sv = stmts_view(ss@);
    proof {
        lemma_stmts_view(ss@);
        assert(body@.statements == sv);
    }
    let mut i: usize = 0;
    while i < ss.len()
        invariant
            i <= ss@.len(),
            sv == stmts_view(ss@),
            sv == body@.statements,
            sv.len() == ss@.len(),
            forall|q: int| 0 <= q < ss@.len() ==> #[trigger] sv[q] == ss@[q]@,
            forall|q: int| 0 <= q < i ==> !(#[trigger] stmt_expr(sv[q]) matches Some(e) && mentions_timestamp(e)),
        decreases ss.len() - i,
    {
        match stmt_expr_of(&ss[i]) {
            Some(e) => {
                if mentions_timestamp_exec(e) {
                    assert(stmt_expr(sv[i as int]) == Some(e@));
                    return true;
                }
            },
            None => {},
        }
        i = i + 1;
    }
    false
}

/// The checks a program must pass to be deployed as a contract:
/// reentrancy and timestamp dependence in each task.
pub fn check_contract_safety(program: &Program) -> (r: Vec<String>)
    ensures
        r@.map_values(|s: String| s@) == contract_errors(program@.statements),
{
    let stmts = &program.statements;
    let mut errors: Vec<String> = Vec::new();
    let mut i: usize = 0;
    proof {
        lemma_stmts_view(stmts@);
    }
    while i < stmts.len()
        invariant
            i <= stmts@.len(),
            stmts_view(stmts@).len() == stmts@.len(),
            forall|j: int| 0 <= j < stmts@.len() ==> #[trigger] stmts_view(stmts@)[j] == stmts@[j]@,
            errors@.map_values(|s: String| s@) == contract_errors(stmts_view(stmts@).take(i as int)),
        decreases stmts.len() - i,
    {
        proof {
            let t = stmts_view(stmts@).take(i + 1);
            assert(t.drop_last() =~= stmts_view(stmts@).take(i as int));
            assert(t.last() == stmts@[i as int]@);
        }
        match &stmts[i] {
            Stmt::TaskDecl { name, params, body, .. } => {
                if has_external_call_before_state_change(params, body) {
                    errors.push(concat3("Potential reentrancy in '", name.as_str(), "': external call before state change.\n  Sovereign blocks this. Move state changes before external calls."));
                }
                if uses_timestamp(body) {
                    errors.push(concat3("Timestamp dependence in '", name.as_str(), "': block.timestamp can be manipulated by miners."));
                }
            },
            _ => {},
        }
        i = i + 1;
    }
    proof {
        assert(stmts_view(stmts@).take(stmts@.len() as int) =~= stmts_view(stmts@));
    }
    errors
}

} // verus!
