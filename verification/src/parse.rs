use vstd::prelude::*;

use crate::bytecode::ByteCode;
use crate::error::LuaError;
use crate::lex::Token;
use crate::value::{Val, Value, bytes_eq, value_eq};

verus! {

/// The compiler's abstract state: the constant pool, the instruction
/// list and the declared local names, all as mathematical sequences.
#[verifier::ext_equal]
pub struct CompState {
    pub consts: Seq<Val>,
    pub instrs: Seq<ByteCode>,
    pub locals: Seq<Seq<u8>>,
}

/// The models of the values in a pool.
pub open spec fn deep_vals(s: Seq<Value>) -> Seq<Val> {
    s.map_values(|v: Value| v@)
}

/// The models of the declared local names.
pub open spec fn deep_names(s: Seq<Vec<u8>>) -> Seq<Seq<u8>> {
    s.map_values(|n: Vec<u8>| n@)
}

/// The remaining tokens after consuming `k` of them.
pub open spec fn rest(toks: Seq<Token>, k: int) -> Seq<Token> {
    if 0 <= k <= toks.len() {
        toks.skip(k)
    } else if k > toks.len() {
        Seq::empty()
    } else {
        toks
    }
}

/// The next token, or the end marker when none is left.
pub open spec fn head(toks: Seq<Token>) -> Token {
    if toks.len() > 0 {
        toks[0]
    } else {
        Token::Eos
    }
}

/// The position of the first pool entry equal to `v`, scanning from `j`.
pub open spec fn sp_find(consts: Seq<Val>, v: Val, j: int) -> Option<int>
    decreases consts.len() - j,
{
    if j < 0 || j >= consts.len() {
        None
    } else if consts[j] == v {
        Some(j)
    } else {
        sp_find(consts, v, j + 1)
    }
}

/// Interning: the index of `v` in the pool, appending it only when it is
/// absent, and refusing a pool that would grow past 256 entries.
pub open spec fn sp_add_const(consts: Seq<Val>, v: Val) -> Result<(Seq<Val>, int), LuaError> {
    match sp_find(consts, v, 0) {
        Some(j) => Ok((consts, j)),
        None => if consts.len() >= 256 {
            Err(LuaError::ConstantOverflow)
        } else {
            Ok((consts.push(v), consts.len() as int))
        },
    }
}

/// The slot of the most recently declared local with this name.
pub open spec fn sp_resolve(locals: Seq<Seq<u8>>, name: Seq<u8>) -> Option<int>
    decreases locals.len(),
{
    if locals.len() == 0 {
        None
    } else if locals.last() == name {
        Some(locals.len() - 1)
    } else {
        sp_resolve(locals.drop_last(), name)
    }
}

/// One expression: a single atom compiled to exactly one instruction
/// that writes the destination slot.
pub open spec fn sp_load_exp(st: CompState, t: Token, dst: int) -> Result<CompState, LuaError> {
    if dst > 255 {
        Err(LuaError::SlotOverflow)
    } else {
        match t {
            Token::String(s) => match sp_add_const(st.consts, Val::Str(s@)) {
                Ok(p) => Ok(
                    CompState {
                        consts: p.0,
                        instrs: st.instrs.push(ByteCode::LoadConstant(dst as u8, p.1 as u8)),
                        locals: st.locals,
                    },
                ),
                Err(e) => Err(e),
            },
            Token::Integer(v) => if -32768 <= v && v <= 32767 {
                Ok(
                    CompState {
                        instrs: st.instrs.push(ByteCode::LoadInt(dst as u8, v as i16)),
                        ..st
                    },
                )
            } else {
                match sp_add_const(st.consts, Val::Int(v)) {
                    Ok(p) => Ok(
                        CompState {
                            consts: p.0,
                            instrs: st.instrs.push(ByteCode::LoadConstant(dst as u8, p.1 as u8)),
                            locals: st.locals,
                        },
                    ),
                    Err(e) => Err(e),
                }
            },
            Token::Float(b) => match sp_add_const(st.consts, Val::FloatBits(b)) {
                Ok(p) => Ok(
                    CompState {
                        consts: p.0,
                        instrs: st.instrs.push(ByteCode::LoadConstant(dst as u8, p.1 as u8)),
                        locals: st.locals,
                    },
                ),
                Err(e) => Err(e),
            },
            Token::FloatLit(_) => Err(LuaError::RawFloat),
            Token::True => Ok(
                CompState { instrs: st.instrs.push(ByteCode::LoadBool(dst as u8, true)), ..st },
            ),
            Token::False => Ok(
                CompState { instrs: st.instrs.push(ByteCode::LoadBool(dst as u8, false)), ..st },
            ),
            Token::Nil => Ok(
                CompState { instrs: st.instrs.push(ByteCode::LoadNil(dst as u8)), ..st },
            ),
            Token::Name(nm) => match sp_resolve(st.locals, nm@) {
                Some(j) => Ok(
                    CompState {
                        instrs: st.instrs.push(ByteCode::Move(dst as u8, j as u8)),
                        ..st
                    },
                ),
                None => match sp_add_const(st.consts, Val::Str(nm@)) {
                    Ok(p) => Ok(
                        CompState {
                            consts: p.0,
                            instrs: st.instrs.push(ByteCode::GetGlobal(dst as u8, p.1 as u8)),
                            locals: st.locals,
                        },
                    ),
                    Err(e) => Err(e),
                },
            },
            _ => Err(LuaError::UnexpectedToken),
        }
    }
}

/// The right-hand side of an assignment to a global whose name sits in
/// the pool at `dstc`: one specialized store, no intermediate slot.
pub open spec fn sp_assign_global_rhs(st: CompState, dstc: int, t: Token) -> Result<
    CompState,
    LuaError,
> {
    match t {
        Token::String(s) => match sp_add_const(st.consts, Val::Str(s@)) {
            Ok(p) => Ok(
                CompState {
                    consts: p.0,
                    instrs: st.instrs.push(ByteCode::SetGlobalConst(dstc as u8, p.1 as u8)),
                    locals: st.locals,
                },
            ),
            Err(e) => Err(e),
        },
        Token::Integer(v) => match sp_add_const(st.consts, Val::Int(v)) {
            Ok(p) => Ok(
                CompState {
                    consts: p.0,
                    instrs: st.instrs.push(ByteCode::SetGlobalConst(dstc as u8, p.1 as u8)),
                    locals: st.locals,
                },
            ),
            Err(e) => Err(e),
        },
        Token::Float(b) => match sp_add_const(st.consts, Val::FloatBits(b)) {
            Ok(p) => Ok(
                CompState {
                    consts: p.0,
                    instrs: st.instrs.push(ByteCode::SetGlobalConst(dstc as u8, p.1 as u8)),
                    locals: st.locals,
                },
            ),
            Err(e) => Err(e),
        },
        Token::FloatLit(_) => Err(LuaError::RawFloat),
        Token::True => match sp_add_const(st.consts, Val::Boolean(true)) {
            Ok(p) => Ok(
                CompState {
                    consts: p.0,
                    instrs: st.instrs.push(ByteCode::SetGlobalConst(dstc as u8, p.1 as u8)),
                    locals: st.locals,
                },
            ),
            Err(e) => Err(e),
        },
        Token::False => match sp_add_const(st.consts, Val::Boolean(false)) {
            Ok(p) => Ok(
                CompState {
                    consts: p.0,
                    instrs: st.instrs.push(ByteCode::SetGlobalConst(dstc as u8, p.1 as u8)),
                    locals: st.locals,
                },
            ),
            Err(e) => Err(e),
        },
        Token::Nil => match sp_add_const(st.consts, Val::NilV) {
            Ok(p) => Ok(
                CompState {
                    consts: p.0,
                    instrs: st.instrs.push(ByteCode::SetGlobalConst(dstc as u8, p.1 as u8)),
                    locals: st.locals,
                },
            ),
            Err(e) => Err(e),
        },
        Token::Name(nm) => match sp_resolve(st.locals, nm@) {
            Some(j) => Ok(
                CompState {
                    instrs: st.instrs.push(ByteCode::SetGlobal(dstc as u8, j as u8)),
                    ..st
                },
            ),
            None => match sp_add_const(st.consts, Val::Str(nm@)) {
                Ok(p) => Ok(
                    CompState {
                        consts: p.0,
                        instrs: st.instrs.push(ByteCode::SetGlobalGlobal(dstc as u8, p.1 as u8)),
                        locals: st.locals,
                    },
                ),
                Err(e) => Err(e),
            },
        },
        _ => Err(LuaError::UnexpectedToken),
    }
}

/// An assignment statement `name = rhs`: a resolved local is written in
/// place exactly as a declaration writes it; an unresolved name becomes
/// a global store specialized on the form of the right-hand side.
pub open spec fn sp_assignment(st: CompState, name: Seq<u8>, rhs: Token) -> Result<
    CompState,
    LuaError,
> {
    match sp_resolve(st.locals, name) {
        Some(j) => sp_load_exp(st, rhs, j),
        None => match sp_add_const(st.consts, Val::Str(name)) {
            Ok(p) => sp_assign_global_rhs(
                CompState { consts: p.0, instrs: st.instrs, locals: st.locals },
                p.1,
                rhs,
            ),
            Err(e) => Err(e),
        },
    }
}

/// A call statement `name <arg>`: the callee is loaded as a global into
/// the first free slot, the single argument into the slot above it, and
/// one call instruction follows. The argument is a bare string literal
/// or one parenthesized expression.
pub open spec fn sp_call(st: CompState, name: Seq<u8>, toks: Seq<Token>) -> Result<
    (CompState, Seq<Token>),
    LuaError,
> {
    let fslot = st.locals.len() as int;
    if fslot + 1 > 255 {
        Err(LuaError::SlotOverflow)
    } else {
        match sp_add_const(st.consts, Val::Str(name)) {
            Err(e) => Err(e),
            Ok(p) => {
                let st1 = CompState {
                    consts: p.0,
                    instrs: st.instrs.push(ByteCode::GetGlobal(fslot as u8, p.1 as u8)),
                    locals: st.locals,
                };
                match head(toks) {
                    Token::String(s) => match sp_add_const(st1.consts, Val::Str(s@)) {
                        Err(e) => Err(e),
                        Ok(q) => Ok(
                            (
                                CompState {
                                    consts: q.0,
                                    instrs: st1.instrs.push(
                                        ByteCode::LoadConstant((fslot + 1) as u8, q.1 as u8),
                                    ).push(ByteCode::Call(fslot as u8, 1)),
                                    locals: st.locals,
                                },
                                rest(toks, 1),
                            ),
                        ),
                    },
                    Token::Lp => match sp_load_exp(st1, head(rest(toks, 1)), fslot + 1) {
                        Err(e) => Err(e),
                        Ok(st2) => if head(rest(toks, 2)) is Rp {
                            Ok(
                                (
                                    CompState {
                                        instrs: st2.instrs.push(ByteCode::Call(fslot as u8, 1)),
                                        ..st2
                                    },
                                    rest(toks, 3),
                                ),
                            )
                        } else {
                            Err(LuaError::ExpectedRightParen)
                        },
                    },
                    _ => Err(LuaError::ExpectedArgument),
                }
            },
        }
    }
}

/// A `local name = rhs` declaration: the expression is compiled into the
/// next free slot first, and only then is the name declared, so the
/// right-hand side can never see the variable being introduced.
pub open spec fn sp_local(st: CompState, nm: Seq<u8>, rhs: Token) -> Result<CompState, LuaError> {
    match sp_load_exp(st, rhs, st.locals.len() as int) {
        Ok(st1) => Ok(CompState { locals: st1.locals.push(nm), ..st1 }),
        Err(e) => Err(e),
    }
}

/// The whole statement list over the remaining tokens: the meaning of
/// compilation. Each statement reads one leading token and dispatches;
/// the end marker completes the program.
pub open spec fn sp_stmts(toks: Seq<Token>, st: CompState) -> Result<CompState, LuaError>
    decreases toks.len(),
{
    match head(toks) {
        Token::Eos => Ok(st),
        Token::Name(nm) => if head(rest(toks, 1)) is Assign {
            match sp_assignment(st, nm@, head(rest(toks, 2))) {
                Ok(st1) => sp_stmts(rest(toks, 3), st1),
                Err(e) => Err(e),
            }
        } else {
            match sp_call(st, nm@, rest(toks, 1)) {
                Ok(p) => sp_stmts(p.1, p.0),
                Err(e) => Err(e),
            }
        },
        Token::Local => match head(rest(toks, 1)) {
            Token::Name(nm) => if head(rest(toks, 2)) is Assign {
                match sp_local(st, nm@, head(rest(toks, 3))) {
                    Ok(st1) => sp_stmts(rest(toks, 4), st1),
                    Err(e) => Err(e),
                }
            } else {
                Err(LuaError::ExpectedAssign)
            },
            _ => Err(LuaError::ExpectedName),
        },
        _ => Err(LuaError::UnexpectedToken),
    }
}

/// A literal right-hand side: a value known at compile time.
pub open spec fn is_literal_token(t: Token) -> bool {
    t is String || t is Integer || t is Float || t is True || t is False || t is Nil
}

proof fn lemma_find_in_range(consts: Seq<Val>, v: Val, j0: int)
    ensures
        sp_find(consts, v, j0) matches Some(j) ==> j0 <= j < consts.len() && consts[j] == v,
    decreases consts.len() - j0,
{
    if 0 <= j0 < consts.len() && consts[j0] != v {
        lemma_find_in_range(consts, v, j0 + 1);
    }
}

proof fn lemma_find_push(consts: Seq<Val>, v: Val, j: int)
    requires
        0 <= j <= consts.len(),
        sp_find(consts, v, j) is None,
    ensures
        sp_find(consts.push(v), v, j) == Some(consts.len() as int),
    decreases consts.len() - j,
{
    if j == consts.len() {
        assert(consts.push(v)[j] == v);
    } else {
        assert(consts.push(v)[j] == consts[j]);
        lemma_find_push(consts, v, j + 1);
    }
}

/// Interning is idempotent: once a value has been interned, interning
/// it again — or any structurally equal value — leaves the pool exactly
/// as it is and returns the same index, which names an equal entry.
pub proof fn lemma_intern_idempotent(consts: Seq<Val>, v: Val)
    ensures
        sp_add_const(consts, v) matches Ok(p) ==> sp_add_const(p.0, v) == Ok::<
            (Seq<Val>, int),
            LuaError,
        >(p) && 0 <= p.1 < p.0.len() && p.0[p.1] == v,
{
    lemma_find_in_range(consts, v, 0);
    if sp_find(consts, v, 0) is None && consts.len() < 256 {
        lemma_find_push(consts, v, 0);
    }
}

/// The pool is capped, never wrapped: with at most 256 entries,
/// interning hands back an index below 256, and it fails exactly when
/// the value is absent and the pool already holds 256 entries.
pub proof fn lemma_intern_overflow(consts: Seq<Val>, v: Val)
    requires
        consts.len() <= 256,
    ensures
        sp_add_const(consts, v) matches Ok(p) ==> p.0.len() <= 256 && 0 <= p.1 < 256,
        sp_add_const(consts, v) is Err <==> (sp_find(consts, v, 0) is None && consts.len() == 256),
{
    lemma_find_in_range(consts, v, 0);
}

/// Slots are handed out in declaration order and never reused: a
/// declaration receives the slot equal to the number of declarations
/// before it — its one emitted instruction writes exactly that slot —
/// the table grows by exactly one, and a name equal to an earlier local
/// resolves to the new, higher slot: shadowing, not overwriting.
pub proof fn lemma_local_new_slot(st: CompState, nm: Seq<u8>, rhs: Token)
    ensures
        sp_local(st, nm, rhs) matches Ok(st1) ==> st1.locals == st.locals.push(nm)
            && st1.locals.len() == st.locals.len() + 1 && sp_resolve(st1.locals, nm) == Some(
            st.locals.len() as int,
        ) && st1.instrs.len() == st.instrs.len() + 1 && crate::bytecode::dst_slot_of(
            st1.instrs.last(),
        ) == Some(st.locals.len() as u8),
{
    match sp_local(st, nm, rhs) {
        Ok(st1) => {
            assert(st1.locals == st.locals.push(nm));
            assert(st.locals.push(nm).last() == nm);
        },
        Err(_) => {},
    }
}

/// Assigning a literal to a new global compiles to exactly one
/// specialized store from the pool — no slot of the stack is written.
pub proof fn lemma_assign_new_global_literal(st: CompState, name: Seq<u8>, rhs: Token)
    requires
        sp_resolve(st.locals, name) is None,
        is_literal_token(rhs),
    ensures
        sp_assignment(st, name, rhs) matches Ok(st1) ==> st1.instrs.len() == st.instrs.len() + 1
            && st1.instrs.last() is SetGlobalConst && st1.instrs.drop_last() == st.instrs
            && st1.locals == st.locals && crate::bytecode::dst_slot_of(st1.instrs.last()) is None,
{
    match sp_assignment(st, name, rhs) {
        Ok(st1) => {
            assert(st1.instrs.drop_last() =~= st.instrs);
        },
        Err(_) => {},
    }
}

/// Assigning to a resolved local takes exactly the path of a
/// declaration's expression: the expression compiler with the local's
/// slot as destination.
pub proof fn lemma_assign_local_same_path(st: CompState, name: Seq<u8>, rhs: Token, j: int)
    requires
        sp_resolve(st.locals, name) == Some(j),
    ensures
        sp_assignment(st, name, rhs) == sp_load_exp(st, rhs, j),
{
}

proof fn lemma_rest_rest(toks: Seq<Token>, a: int, b: int)
    requires
        a >= 0,
        b >= 0,
    ensures
        rest(rest(toks, a), b) == rest(toks, a + b),
{
    assert(rest(rest(toks, a), b) =~= rest(toks, a + b));
}

proof fn lemma_deep_vals_push(s: Seq<Value>, v: Value)
    ensures
        deep_vals(s.push(v)) == deep_vals(s).push(v@),
{
    assert(deep_vals(s.push(v)) =~= deep_vals(s).push(v@));
}

proof fn lemma_deep_names_push(s: Seq<Vec<u8>>, n: Vec<u8>)
    ensures
        deep_names(s.push(n)) == deep_names(s).push(n@),
{
    assert(deep_names(s.push(n)) =~= deep_names(s).push(n@));
}

/// The compiler: it owns the remaining token stream and grows the
/// constant pool, the instruction list and the local-slot table.
pub struct ParseProto {
    pub constants: Vec<Value>,
    pub instructions: Vec<ByteCode>,
    pub locals: Vec<Vec<u8>>,
    pub toks: Vec<Token>,
}

impl ParseProto {
    /// The abstract compiler state this concrete state stands for.
    pub open spec fn cst(&self) -> CompState {
        CompState {
            consts: deep_vals(self.constants@),
            instrs: self.instructions@,
            locals: deep_names(self.locals@),
        }
    }

    /// The bookkeeping bounds every operation preserves: the pool never
    /// passes 256 entries and the slot table never passes 256 names.
    pub open spec fn inv(&self) -> bool {
        self.constants@.len() <= 256 && self.locals@.len() <= 256
    }

    pub fn new(tokens: Vec<Token>) -> (r: ParseProto)
        ensures
            r.cst() == (CompState {
                consts: Seq::<Val>::empty(),
                instrs: Seq::<ByteCode>::empty(),
                locals: Seq::<Seq<u8>>::empty(),
            }),
            r.toks@ == tokens@,
            r.inv(),
    {
        let r = ParseProto {
            constants: Vec::new(),
            instructions: Vec::new(),
            locals: Vec::new(),
            toks: tokens,
        };
        proof {
            assert(r.cst().consts =~= Seq::<Val>::empty());
            assert(r.cst().locals =~= Seq::<Seq<u8>>::empty());
        }
        r
    }

    /// Removes and returns the next token, or the end marker when the
    /// stream is exhausted.
    fn pop_or_eos(&mut self) -> (r: Token)
        ensures
            final(self).constants@ == old(self).constants@,
            final(self).instructions@ == old(self).instructions@,
            final(self).locals@ == old(self).locals@,
            r == head(old(self).toks@),
            final(self).toks@ == rest(old(self).toks@, 1),
    {
        if self.toks.len() > 0 {
            let t = self.toks.remove(0);
            proof {
                assert(self.toks@ =~= rest(old(self).toks@, 1));
            }
            t
        } else {
            proof {
                assert(self.toks@ =~= rest(old(self).toks@, 1));
            }
            Token::Eos
        }
    }

    /// Interns a value: the index of the pool entry structurally equal
    /// to it, appending the value only when no entry matches, and
    /// refusing the 257th distinct constant.
    pub fn add_const(&mut self, v: Value) -> (r: Result<usize, LuaError>)
        requires
            old(self).inv(),
        ensures
            final(self).inv(),
            final(self).instructions@ == old(self).instructions@,
            final(self).locals@ == old(self).locals@,
            final(self).toks@ == old(self).toks@,
            match sp_add_const(old(self).cst().consts, v@) {
                Ok(p) => r matches Ok(u) && u == p.1 && deep_vals(final(self).constants@) == p.0
                    && u < 256,
                Err(e) => r matches Err(ee) && ee == e && final(self).constants@ == old(
                    self,
                ).constants@,
            },
    {
        let ghost cv = deep_vals(self.constants@);
        let n: usize = self.constants.len();
        let mut k: usize = 0;
        while k < n
            invariant
                n == self.constants.len(),
                k <= n,
                *self == *old(self),
                cv == deep_vals(self.constants@),
                old(self).inv(),
                sp_find(cv, v@, 0) == sp_find(cv, v@, k as int),
            decreases n - k,
        {
            if value_eq(&self.constants[k], &v) {
                proof {
                    assert(cv[k as int] == v@);
                    assert(sp_find(cv, v@, k as int) == Some(k as int));
                }
                return Ok(k);
            }
            proof {
                assert(cv[k as int] == self.constants@[k as int]@);
                assert(sp_find(cv, v@, k as int) == sp_find(cv, v@, k + 1));
            }
            k += 1;
        }
        proof {
            assert(sp_find(cv, v@, n as int) is None);
        }
        if self.constants.len() >= 256 {
            return Err(LuaError::ConstantOverflow);
        }
        let i: usize = self.constants.len();
        self.constants.push(v);
        proof {
            lemma_deep_vals_push(old(self).constants@, v);
        }
        Ok(i)
    }

    /// The slot of the most recently declared local with this name,
    /// scanning the slot table from its newest entry backwards.
    pub fn resolve_local(&self, name: &Vec<u8>) -> (r: Option<usize>)
        ensures
            match sp_resolve(deep_names(self.locals@), name@) {
                Some(j) => r matches Some(u) && u == j && j < self.locals@.len(),
                None => r is None,
            },
    {
        let ghost ln = deep_names(self.locals@);
        let mut k: usize = self.locals.len();
        proof {
            assert(ln.take(self.locals@.len() as int) =~= ln);
        }
        while k > 0
            invariant
                k <= self.locals@.len(),
                ln == deep_names(self.locals@),
                sp_resolve(ln, name@) == sp_resolve(ln.take(k as int), name@),
            decreases k,
        {
            if bytes_eq(&self.locals[k - 1], name) {
                proof {
                    assert(ln.take(k as int).last() == ln[k - 1]);
                    assert(ln[k - 1] == name@);
                    assert(sp_resolve(ln.take(k as int), name@) == Some(k - 1));
                }
                return Some(k - 1);
            }
            proof {
                assert(ln.take(k as int).last() == ln[k - 1]);
                assert(ln.take(k as int).drop_last() =~= ln.take(k - 1));
                assert(sp_resolve(ln.take(k as int), name@) == sp_resolve(ln.take(k - 1), name@));
            }
            k -= 1;
        }
        proof {
            assert(ln.take(0) =~= Seq::<Seq<u8>>::empty());
        }
        None
    }

    /// Compiles one expression atom into the destination slot, emitting
    /// exactly one instruction.
    pub fn load_exp(&mut self, t: Token, dst: usize) -> (r: Result<(), LuaError>)
        requires
            old(self).inv(),
        ensures
            final(self).inv(),
            final(self).toks@ == old(self).toks@,
            match sp_load_exp(old(self).cst(), t, dst as int) {
                Ok(st) => r is Ok && final(self).cst() == st,
                Err(e) => r matches Err(ee) && ee == e,
            },
    {
        if dst > 255 {
            return Err(LuaError::SlotOverflow);
        }
        let code: ByteCode = match t {
            Token::String(s) => {
                let ci: usize = match self.add_const(Value::String(s)) {
                    Ok(c) => c,
                    Err(e) => { return Err(e) },
                };
                ByteCode::LoadConstant(dst as u8, ci as u8)
            },
            Token::Integer(v) => {
                if -32768 <= v && v <= 32767 {
                    ByteCode::LoadInt(dst as u8, v as i16)
                } else {
                    let ci: usize = match self.add_const(Value::Integer(v)) {
                        Ok(c) => c,
                        Err(e) => { return Err(e) },
                    };
                    ByteCode::LoadConstant(dst as u8, ci as u8)
                }
            },
            Token::Float(b) => {
                let ci: usize = match self.add_const(Value::Float(b)) {
                    Ok(c) => c,
                    Err(e) => { return Err(e) },
                };
                ByteCode::LoadConstant(dst as u8, ci as u8)
            },
            Token::FloatLit(_) => { return Err(LuaError::RawFloat) },
            Token::True => ByteCode::LoadBool(dst as u8, true),
            Token::False => ByteCode::LoadBool(dst as u8, false),
            Token::Nil => ByteCode::LoadNil(dst as u8),
            Token::Name(nm) => {
                match self.resolve_local(&nm) {
                    Some(j) => ByteCode::Move(dst as u8, j as u8),
                    None => {
                        let ci: usize = match self.add_const(Value::String(nm)) {
                            Ok(c) => c,
                            Err(e) => { return Err(e) },
                        };
                        ByteCode::GetGlobal(dst as u8, ci as u8)
                    },
                }
            },
            _ => { return Err(LuaError::UnexpectedToken) },
        };
        self.instructions.push(code);
        proof {
            match sp_load_exp(old(self).cst(), t, dst as int) {
                Ok(st) => {
                    assert(self.cst() =~= st);
                },
                Err(_) => {},
            }
        }
        Ok(())
    }

    /// Compiles an assignment statement `name = rhs`.
    pub fn assignment(&mut self, name: Vec<u8>, rhs: Token) -> (r: Result<(), LuaError>)
        requires
            old(self).inv(),
        ensures
            final(self).inv(),
            final(self).toks@ == old(self).toks@,
            match sp_assignment(old(self).cst(), name@, rhs) {
                Ok(st) => r is Ok && final(self).cst() == st,
                Err(e) => r matches Err(ee) && ee == e,
            },
    {
        match self.resolve_local(&name) {
            Some(j) => self.load_exp(rhs, j),
            None => {
                let dstc: usize = match self.add_const(Value::String(name)) {
                    Ok(c) => c,
                    Err(e) => { return Err(e) },
                };
                let code: ByteCode = match rhs {
                    Token::String(s) => {
                        let ci: usize = match self.add_const(Value::String(s)) {
                            Ok(c) => c,
                            Err(e) => { return Err(e) },
                        };
                        ByteCode::SetGlobalConst(dstc as u8, ci as u8)
                    },
                    Token::Integer(v) => {
                        let ci: usize = match self.add_const(Value::Integer(v)) {
                            Ok(c) => c,
                            Err(e) => { return Err(e) },
                        };
                        ByteCode::SetGlobalConst(dstc as u8, ci as u8)
                    },
                    Token::Float(b) => {
                        let ci: usize = match self.add_const(Value::Float(b)) {
                            Ok(c) => c,
                            Err(e) => { return Err(e) },
                        };
                        ByteCode::SetGlobalConst(dstc as u8, ci as u8)
                    },
                    Token::FloatLit(_) => { return Err(LuaError::RawFloat) },
                    Token::True => {
                        let ci: usize = match self.add_const(Value::Bool(true)) {
                            Ok(c) => c,
                            Err(e) => { return Err(e) },
                        };
                        ByteCode::SetGlobalConst(dstc as u8, ci as u8)
                    },
                    Token::False => {
                        let ci: usize = match self.add_const(Value::Bool(false)) {
                            Ok(c) => c,
                            Err(e) => { return Err(e) },
                        };
                        ByteCode::SetGlobalConst(dstc as u8, ci as u8)
                    },
                    Token::Nil => {
                        let ci: usize = match self.add_const(Value::Nil) {
                            Ok(c) => c,
                            Err(e) => { return Err(e) },
                        };
                        ByteCode::SetGlobalConst(dstc as u8, ci as u8)
                    },
                    Token::Name(nm) => {
                        match self.resolve_local(&nm) {
                            Some(j) => ByteCode::SetGlobal(dstc as u8, j as u8),
                            None => {
                                let ci: usize = match self.add_const(Value::String(nm)) {
                                    Ok(c) => c,
                                    Err(e) => { return Err(e) },
                                };
                                ByteCode::SetGlobalGlobal(dstc as u8, ci as u8)
                            },
                        }
                    },
                    _ => { return Err(LuaError::UnexpectedToken) },
                };
                self.instructions.push(code);
                proof {
                    match sp_assignment(old(self).cst(), name@, rhs) {
                        Ok(st) => {
                            assert(self.cst() =~= st);
                        },
                        Err(_) => {},
                    }
                }
                Ok(())
            },
        }
    }

    /// Compiles a call statement after its leading name, consuming the
    /// argument tokens from the stream.
    pub fn function_call(&mut self, name: Vec<u8>) -> (r: Result<(), LuaError>)
        requires
            old(self).inv(),
        ensures
            final(self).inv(),
            match sp_call(old(self).cst(), name@, old(self).toks@) {
                Ok(p) => r is Ok && final(self).cst() == p.0 && final(self).toks@ == p.1,
                Err(e) => r matches Err(ee) && ee == e,
            },
    {
        let fslot: usize = self.locals.len();
        if fslot + 1 > 255 {
            return Err(LuaError::SlotOverflow);
        }
        let ci: usize = match self.add_const(Value::String(name)) {
            Ok(c) => c,
            Err(e) => { return Err(e) },
        };
        self.instructions.push(ByteCode::GetGlobal(fslot as u8, ci as u8));
        let t = self.pop_or_eos();
        match t {
            Token::String(s) => {
                let ai: usize = match self.add_const(Value::String(s)) {
                    Ok(c) => c,
                    Err(e) => { return Err(e) },
                };
                self.instructions.push(ByteCode::LoadConstant((fslot + 1) as u8, ai as u8));
            },
            Token::Lp => {
                let rhs = self.pop_or_eos();
                match self.load_exp(rhs, fslot + 1) {
                    Ok(()) => (),
                    Err(e) => { return Err(e) },
                }
                let t2 = self.pop_or_eos();
                if !matches!(t2, Token::Rp) {
                    return Err(LuaError::ExpectedRightParen);
                }
                proof {
                    lemma_rest_rest(old(self).toks@, 1, 1);
                    lemma_rest_rest(old(self).toks@, 2, 1);
                }
            },
            _ => { return Err(LuaError::ExpectedArgument) },
        }
        self.instructions.push(ByteCode::Call(fslot as u8, 1));
        proof {
            match sp_call(old(self).cst(), name@, old(self).toks@) {
                Ok(p) => {
                    assert(self.cst() =~= p.0);
                    assert(self.toks@ == p.1);
                },
                Err(_) => {},
            }
        }
        Ok(())
    }

    /// Compiles every remaining statement. On success the constant pool
    /// and instruction list are exactly what the statement semantics
    /// `sp_stmts` assigns to the consumed token stream; on failure the
    /// error is exactly the one that semantics assigns.
    pub fn compile(&mut self) -> (r: Result<(), LuaError>)
        requires
            old(self).inv(),
        ensures
            final(self).inv(),
            match sp_stmts(old(self).toks@, old(self).cst()) {
                Ok(st) => r is Ok && final(self).cst() == st,
                Err(e) => r matches Err(ee) && ee == e,
            },
    {
        loop
            invariant
                self.inv(),
                sp_stmts(old(self).toks@, old(self).cst()) == sp_stmts(self.toks@, self.cst()),
            decreases self.toks@.len(),
        {
            let ghost toks0 = self.toks@;
            let ghost st0 = self.cst();
            let t = self.pop_or_eos();
            match t {
                Token::Eos => {
                    return Ok(());
                },
                Token::Name(nm) => {
                    let ghost nmv = nm@;
                    let is_assign = self.toks.len() > 0 && matches!(&self.toks[0], Token::Assign);
                    if is_assign {
                        let _assign_tok = self.pop_or_eos();
                        let rhs = self.pop_or_eos();
                        proof {
                            lemma_rest_rest(toks0, 1, 1);
                            lemma_rest_rest(toks0, 2, 1);
                            assert(self.toks@ == rest(toks0, 3));
                        }
                        match self.assignment(nm, rhs) {
                            Ok(()) => {
                                proof {
                                    match sp_assignment(st0, nmv, rhs) {
                                        Ok(st1) => {
                                            assert(sp_stmts(toks0, st0) == sp_stmts(
                                                rest(toks0, 3),
                                                st1,
                                            ));
                                        },
                                        Err(_) => {},
                                    }
                                }
                            },
                            Err(e) => { return Err(e) },
                        }
                    } else {
                        match self.function_call(nm) {
                            Ok(()) => {
                                proof {
                                    match sp_call(st0, nmv, rest(toks0, 1)) {
                                        Ok(p) => {
                                            assert(sp_stmts(toks0, st0) == sp_stmts(p.1, p.0));
                                        },
                                        Err(_) => {},
                                    }
                                }
                            },
                            Err(e) => { return Err(e) },
                        }
                    }
                },
                Token::Local => {
                    let t1 = self.pop_or_eos();
                    proof {
                        lemma_rest_rest(toks0, 1, 1);
                    }
                    match t1 {
                        Token::Name(nm) => {
                            let ghost nmv = nm@;
                            let t2 = self.pop_or_eos();
                            proof {
                                lemma_rest_rest(toks0, 2, 1);
                            }
                            if matches!(t2, Token::Assign) {
                                let rhs = self.pop_or_eos();
                                proof {
                                    lemma_rest_rest(toks0, 3, 1);
                                    assert(self.toks@ == rest(toks0, 4));
                                }
                                let dst: usize = self.locals.len();
                                match self.load_exp(rhs, dst) {
                                    Ok(()) => (),
                                    Err(e) => { return Err(e) },
                                }
                                let ghost before_push = self.locals@;
                                self.locals.push(nm);
                                proof {
                                    lemma_deep_names_push(before_push, nm);
                                    match sp_local(st0, nmv, rhs) {
                                        Ok(st1) => {
                                            assert(self.cst() =~= st1);
                                            assert(sp_stmts(toks0, st0) == sp_stmts(
                                                rest(toks0, 4),
                                                st1,
                                            ));
                                        },
                                        Err(_) => {},
                                    }
                                }
                            } else {
                                return Err(LuaError::ExpectedAssign);
                            }
                        },
                        _ => {
                            return Err(LuaError::ExpectedName);
                        },
                    }
                },
                _ => {
                    return Err(LuaError::UnexpectedToken);
                },
            }
        }
    }
}

} // verus!

