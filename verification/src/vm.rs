use vstd::prelude::*;

use crate::bytecode::ByteCode;
use crate::error::LuaError;
use crate::parse::{ParseProto, deep_vals};
use crate::value::{Val, Value, bytes_dup, bytes_eq, dup_value};

verus! {

/// The machine's abstract state: the runtime stack, the global table as
/// an association sequence, and the values handed to the host for
/// printing, in order.
#[verifier::ext_equal]
pub struct VmState {
    pub stack: Seq<Val>,
    pub globals: Seq<(Seq<u8>, Val)>,
    pub output: Seq<Val>,
}

/// The models of the entries of the global table.
pub open spec fn deep_globals(s: Seq<(Vec<u8>, Value)>) -> Seq<(Seq<u8>, Val)> {
    s.map_values(|p: (Vec<u8>, Value)| (p.0@, p.1@))
}

/// The position of the first entry for `name`, scanning from `j`.
pub open spec fn sp_gfind(gs: Seq<(Seq<u8>, Val)>, name: Seq<u8>, j: int) -> Option<int>
    decreases gs.len() - j,
{
    if j < 0 || j >= gs.len() {
        None
    } else if gs[j].0 == name {
        Some(j)
    } else {
        sp_gfind(gs, name, j + 1)
    }
}

/// The value bound to a global name, if any.
pub open spec fn sp_glookup(gs: Seq<(Seq<u8>, Val)>, name: Seq<u8>) -> Option<Val> {
    match sp_gfind(gs, name, 0) {
        Some(i) => Some(gs[i].1),
        None => None,
    }
}

/// The global table after binding `name` to `v`: the existing entry is
/// overwritten in place, a new name is appended.
pub open spec fn sp_gput(gs: Seq<(Seq<u8>, Val)>, name: Seq<u8>, v: Val) -> Seq<(Seq<u8>, Val)> {
    match sp_gfind(gs, name, 0) {
        Some(i) => gs.update(i, (name, v)),
        None => gs.push((name, v)),
    }
}

/// A write to a stack slot: in place below the top, growing the stack by
/// exactly one at the top, and a fault past that — the stack never has
/// holes.
pub open spec fn sp_setstack(st: VmState, i: int, v: Val) -> Result<VmState, LuaError> {
    if i < st.stack.len() {
        Ok(VmState { stack: st.stack.update(i, v), ..st })
    } else if i == st.stack.len() {
        Ok(VmState { stack: st.stack.push(v), ..st })
    } else {
        Err(LuaError::InvalidStackIndex)
    }
}

/// What one instruction does to the machine. Global loads of an unbound
/// name yield nil, never a fault; global stores bind unconditionally;
/// a call requires a native function in the callee slot, and the one
/// native, `print` (handle 0), pops the value above the callee and
/// appends it to the output.
pub open spec fn sp_step(consts: Seq<Val>, instr: ByteCode, st: VmState) -> Result<
    VmState,
    LuaError,
> {
    match instr {
        ByteCode::GetGlobal(dst, c) => if c >= consts.len() {
            Err(LuaError::InvalidConstantIndex)
        } else {
            match consts[c as int] {
                Val::Str(name) => {
                    let v = match sp_glookup(st.globals, name) {
                        Some(v) => v,
                        None => Val::NilV,
                    };
                    sp_setstack(st, dst as int, v)
                },
                _ => Err(LuaError::ExpectedStringConstant),
            }
        },
        ByteCode::LoadConstant(dst, c) => if c >= consts.len() {
            Err(LuaError::InvalidConstantIndex)
        } else {
            sp_setstack(st, dst as int, consts[c as int])
        },
        ByteCode::LoadNil(dst) => sp_setstack(st, dst as int, Val::NilV),
        ByteCode::LoadBool(dst, b) => sp_setstack(st, dst as int, Val::Boolean(b)),
        ByteCode::LoadInt(dst, v) => sp_setstack(st, dst as int, Val::Int(v as i64)),
        ByteCode::Move(dst, src) => if src >= st.stack.len() {
            Err(LuaError::InvalidStackIndex)
        } else {
            sp_setstack(st, dst as int, st.stack[src as int])
        },
        ByteCode::SetGlobal(nc, src) => if nc >= consts.len() {
            Err(LuaError::InvalidConstantIndex)
        } else {
            match consts[nc as int] {
                Val::Str(name) => if src >= st.stack.len() {
                    Err(LuaError::InvalidStackIndex)
                } else {
                    Ok(VmState { globals: sp_gput(st.globals, name, st.stack[src as int]), ..st })
                },
                _ => Err(LuaError::ExpectedStringConstant),
            }
        },
        ByteCode::SetGlobalConst(nc, vc) => if nc >= consts.len() {
            Err(LuaError::InvalidConstantIndex)
        } else {
            match consts[nc as int] {
                Val::Str(name) => if vc >= consts.len() {
                    Err(LuaError::InvalidConstantIndex)
                } else {
                    Ok(VmState { globals: sp_gput(st.globals, name, consts[vc as int]), ..st })
                },
                _ => Err(LuaError::ExpectedStringConstant),
            }
        },
        ByteCode::SetGlobalGlobal(nc, sc) => if nc >= consts.len() {
            Err(LuaError::InvalidConstantIndex)
        } else {
            match consts[nc as int] {
                Val::Str(name) => if sc >= consts.len() {
                    Err(LuaError::InvalidConstantIndex)
                } else {
                    match consts[sc as int] {
                        Val::Str(src_name) => {
                            let v = match sp_glookup(st.globals, src_name) {
                                Some(v) => v,
                                None => Val::NilV,
                            };
                            Ok(VmState { globals: sp_gput(st.globals, name, v), ..st })
                        },
                        _ => Err(LuaError::ExpectedStringConstant),
                    }
                },
                _ => Err(LuaError::ExpectedStringConstant),
            }
        },
        ByteCode::Call(f, _argc) => if f >= st.stack.len() {
            Err(LuaError::InvalidStackIndex)
        } else {
            match st.stack[f as int] {
                Val::Func(h) => if h == 0 {
                    Ok(
                        VmState {
                            stack: st.stack.drop_last(),
                            globals: st.globals,
                            output: st.output.push(st.stack.last()),
                        },
                    )
                } else {
                    Err(LuaError::NativeCallFailed)
                },
                _ => Err(LuaError::NotCallable),
            }
        },
    }
}

/// A whole run: the instructions in order, stopping at the first fault.
pub open spec fn sp_run(consts: Seq<Val>, instrs: Seq<ByteCode>, st: VmState) -> Result<
    VmState,
    LuaError,
>
    decreases instrs.len(),
{
    if instrs.len() == 0 {
        Ok(st)
    } else {
        match sp_step(consts, instrs[0], st) {
            Ok(st1) => sp_run(consts, instrs.drop_first(), st1),
            Err(e) => Err(e),
        }
    }
}

/// The byte string a string-valued constant holds.
pub open spec fn str_of(v: Val) -> Seq<u8> {
    match v {
        Val::Str(s) => s,
        _ => Seq::empty(),
    }
}

/// A global load of a name that was never bound writes nil to its
/// destination slot and succeeds — an unbound global is never a fault.
pub proof fn lemma_global_read_default(consts: Seq<Val>, dst: u8, c: u8, st: VmState)
    requires
        (c as int) < consts.len(),
        consts[c as int] is Str,
        sp_glookup(st.globals, str_of(consts[c as int])) is None,
        dst as int <= st.stack.len(),
    ensures
        sp_step(consts, ByteCode::GetGlobal(dst, c), st) matches Ok(st1) && st1.stack[dst as int]
            == Val::NilV && st1.globals == st.globals && st1.output == st.output
            && st1.stack.len() == (if (dst as int) < st.stack.len() {
            st.stack.len()
        } else {
            st.stack.len() + 1
        }),
{
}

/// The name of the one pre-registered native function.
pub open spec fn print_name() -> Seq<u8> {
    seq![112u8, 114u8, 105u8, 110u8, 116u8]
}

/// The virtual machine: a runtime stack, a global table seeded with the
/// native `print`, and the values printed so far, for the host to
/// render. Each instance is independent; nothing is shared between runs.
pub struct ExeState {
    pub stack: Vec<Value>,
    pub globals: Vec<(Vec<u8>, Value)>,
    pub output: Vec<Value>,
}

impl ExeState {
    /// The abstract machine state this concrete state stands for.
    pub open spec fn vst(&self) -> VmState {
        VmState {
            stack: deep_vals(self.stack@),
            globals: deep_globals(self.globals@),
            output: deep_vals(self.output@),
        }
    }

    /// A fresh machine: empty stack, the single `print` global, no
    /// output yet.
    pub fn new() -> (r: ExeState)
        ensures
            r.vst() == (VmState {
                stack: Seq::<Val>::empty(),
                globals: seq![(print_name(), Val::Func(0))],
                output: Seq::<Val>::empty(),
            }),
    {
        let mut name: Vec<u8> = Vec::new();
        // the bytes of "print"
        name.push(112);
        name.push(114);
        name.push(105);
        name.push(110);
        name.push(116);
        proof {
            assert(name@ =~= print_name());
        }
        let mut globals: Vec<(Vec<u8>, Value)> = Vec::new();
        globals.push((name, Value::Function(0)));
        let r = ExeState { stack: Vec::new(), globals, output: Vec::new() };
        proof {
            assert(r.vst().stack =~= Seq::<Val>::empty());
            assert(r.vst().output =~= Seq::<Val>::empty());
            assert(r.vst().globals =~= seq![(print_name(), Val::Func(0))]);
            assert(r.vst() =~= (VmState {
                stack: Seq::<Val>::empty(),
                globals: seq![(print_name(), Val::Func(0))],
                output: Seq::<Val>::empty(),
            }));
        }
        r
    }

    /// The position of a global's entry, if the name is bound.
    fn find_global(&self, name: &Vec<u8>) -> (r: Option<usize>)
        ensures
            match sp_gfind(deep_globals(self.globals@), name@, 0) {
                Some(j) => r matches Some(u) && u == j && j < self.globals@.len(),
                None => r is None,
            },
    {
        let ghost gv = deep_globals(self.globals@);
        let n: usize = self.globals.len();
        let mut k: usize = 0;
        while k < n
            invariant
                n == self.globals.len(),
                k <= n,
                gv == deep_globals(self.globals@),
                sp_gfind(gv, name@, 0) == sp_gfind(gv, name@, k as int),
            decreases n - k,
        {
            if bytes_eq(&self.globals[k].0, name) {
                proof {
                    assert(gv[k as int].0 == name@);
                    assert(sp_gfind(gv, name@, k as int) == Some(k as int));
                }
                return Some(k);
            }
            proof {
                assert(gv[k as int].0 == self.globals@[k as int].0@);
                assert(sp_gfind(gv, name@, k as int) == sp_gfind(gv, name@, k + 1));
            }
            k += 1;
        }
        proof {
            assert(sp_gfind(gv, name@, n as int) is None);
        }
        None
    }

    /// The value of a global, nil when the name was never bound.
    fn read_global(&self, name: &Vec<u8>) -> (r: Value)
        ensures
            r@ == (match sp_glookup(deep_globals(self.globals@), name@) {
                Some(v) => v,
                None => Val::NilV,
            }),
    {
        match self.find_global(name) {
            Some(i) => dup_value(&self.globals[i].1),
            None => Value::Nil,
        }
    }

    /// Binds a global: overwrites the entry in place, or appends one.
    fn write_global(&mut self, name: Vec<u8>, v: Value)
        ensures
            final(self).stack@ == old(self).stack@,
            final(self).output@ == old(self).output@,
            deep_globals(final(self).globals@) == sp_gput(
                deep_globals(old(self).globals@),
                name@,
                v@,
            ),
    {
        match self.find_global(&name) {
            Some(i) => {
                self.globals[i] = (name, v);
                proof {
                    assert(deep_globals(self.globals@) =~= sp_gput(
                        deep_globals(old(self).globals@),
                        name@,
                        v@,
                    ));
                }
            },
            None => {
                self.globals.push((name, v));
                proof {
                    assert(deep_globals(self.globals@) =~= sp_gput(
                        deep_globals(old(self).globals@),
                        name@,
                        v@,
                    ));
                }
            },
        }
    }

    /// Writes a stack slot through the no-holes rule.
    fn set_stack(&mut self, index: u8, value: Value) -> (r: Result<(), LuaError>)
        ensures
            final(self).globals@ == old(self).globals@,
            final(self).output@ == old(self).output@,
            match sp_setstack(old(self).vst(), index as int, value@) {
                Ok(st) => r is Ok && final(self).vst() == st,
                Err(e) => r matches Err(ee) && ee == e && *final(self) == *old(self),
            },
    {
        let i: usize = index as usize;
        if i < self.stack.len() {
            self.stack[i] = value;
            proof {
                assert(deep_vals(self.stack@) =~= deep_vals(old(self).stack@).update(
                    i as int,
                    value@,
                ));
                match sp_setstack(old(self).vst(), index as int, value@) {
                    Ok(st) => {
                        assert(self.vst() =~= st);
                    },
                    Err(_) => {},
                }
            }
            Ok(())
        } else if i == self.stack.len() {
            self.stack.push(value);
            proof {
                assert(deep_vals(self.stack@) =~= deep_vals(old(self).stack@).push(value@));
                match sp_setstack(old(self).vst(), index as int, value@) {
                    Ok(st) => {
                        assert(self.vst() =~= st);
                    },
                    Err(_) => {},
                }
            }
            Ok(())
        } else {
            Err(LuaError::InvalidStackIndex)
        }
    }

    /// Reads the constant a byte operand names, faulting past the pool.
    fn read_const(&self, proto: &ParseProto, c: u8) -> (r: Result<Value, LuaError>)
        ensures
            match r {
                Ok(v) => (c as int) < proto.constants@.len() && v@ == deep_vals(
                    proto.constants@,
                )[c as int],
                Err(e) => e == LuaError::InvalidConstantIndex && (c as int)
                    >= proto.constants@.len(),
            },
    {
        let ci: usize = c as usize;
        if ci >= proto.constants.len() {
            return Err(LuaError::InvalidConstantIndex);
        }
        let v = dup_value(&proto.constants[ci]);
        proof {
            assert(deep_vals(proto.constants@)[ci as int] == proto.constants@[ci as int]@);
        }
        Ok(v)
    }

    /// Reads a constant that must name a global, as its byte string.
    fn read_name_const(&self, proto: &ParseProto, c: u8) -> (r: Result<Vec<u8>, LuaError>)
        ensures
            match r {
                Ok(nm) => (c as int) < proto.constants@.len() && deep_vals(
                    proto.constants@,
                )[c as int] == Val::Str(nm@),
                Err(e) => (e == LuaError::InvalidConstantIndex && (c as int)
                    >= proto.constants@.len()) || (e == LuaError::ExpectedStringConstant && (
                c as int) < proto.constants@.len() && !(deep_vals(proto.constants@)[c as int]
                    is Str)),
            },
    {
        let ci: usize = c as usize;
        if ci >= proto.constants.len() {
            return Err(LuaError::InvalidConstantIndex);
        }
        proof {
            assert(deep_vals(proto.constants@)[ci as int] == proto.constants@[ci as int]@);
        }
        match &proto.constants[ci] {
            Value::String(s) => Ok(bytes_dup(s)),
            _ => Err(LuaError::ExpectedStringConstant),
        }
    }

    /// Executes the program: a single linear pass over the instruction
    /// list against the constant pool, stopping at the first fault. On
    /// success the machine holds exactly the state the step semantics
    /// `sp_run` assigns; on failure the fault is exactly the one it
    /// assigns.
    pub fn run(&mut self, proto: &ParseProto) -> (r: Result<(), LuaError>)
        ensures
            match sp_run(deep_vals(proto.constants@), proto.instructions@, old(self).vst()) {
                Ok(st) => r is Ok && final(self).vst() == st,
                Err(e) => r matches Err(ee) && ee == e,
            },
    {
        let ghost cv = deep_vals(proto.constants@);
        let ghost iv = proto.instructions@;
        let n: usize = proto.instructions.len();
        let mut pc: usize = 0;
        proof {
            assert(iv.skip(0) =~= iv);
        }
        while pc < n
            invariant
                n == proto.instructions.len(),
                pc <= n,
                cv == deep_vals(proto.constants@),
                iv == proto.instructions@,
                sp_run(cv, iv, old(self).vst()) == sp_run(cv, iv.skip(pc as int), self.vst()),
            decreases n - pc,
        {
            let ghost stc = self.vst();
            let instr: ByteCode = proto.instructions[pc];
            proof {
                assert(iv.skip(pc as int)[0] == iv[pc as int]);
                assert(iv.skip(pc as int).drop_first() =~= iv.skip(pc + 1));
            }
            match instr {
                ByteCode::GetGlobal(dst, c) => {
                    let nm: Vec<u8> = match self.read_name_const(proto, c) {
                        Ok(nm) => nm,
                        Err(e) => { return Err(e) },
                    };
                    let v = self.read_global(&nm);
                    match self.set_stack(dst, v) {
                        Ok(()) => (),
                        Err(e) => { return Err(e) },
                    }
                },
                ByteCode::LoadConstant(dst, c) => {
                    let v = match self.read_const(proto, c) {
                        Ok(v) => v,
                        Err(e) => { return Err(e) },
                    };
                    match self.set_stack(dst, v) {
                        Ok(()) => (),
                        Err(e) => { return Err(e) },
                    }
                },
                ByteCode::LoadNil(dst) => {
                    match self.set_stack(dst, Value::Nil) {
                        Ok(()) => (),
                        Err(e) => { return Err(e) },
                    }
                },
                ByteCode::LoadBool(dst, b) => {
                    match self.set_stack(dst, Value::Bool(b)) {
                        Ok(()) => (),
                        Err(e) => { return Err(e) },
                    }
                },
                ByteCode::LoadInt(dst, v) => {
                    match self.set_stack(dst, Value::Integer(v as i64)) {
                        Ok(()) => (),
                        Err(e) => { return Err(e) },
                    }
                },
                ByteCode::Move(dst, src) => {
                    let si: usize = src as usize;
                    if si >= self.stack.len() {
                        return Err(LuaError::InvalidStackIndex);
                    }
                    let v = dup_value(&self.stack[si]);
                    proof {
                        assert(deep_vals(self.stack@)[si as int] == self.stack@[si as int]@);
                    }
                    match self.set_stack(dst, v) {
                        Ok(()) => (),
                        Err(e) => { return Err(e) },
                    }
                },
                ByteCode::SetGlobal(nc, src) => {
                    let nm: Vec<u8> = match self.read_name_const(proto, nc) {
                        Ok(nm) => nm,
                        Err(e) => { return Err(e) },
                    };
                    let si: usize = src as usize;
                    if si >= self.stack.len() {
                        return Err(LuaError::InvalidStackIndex);
                    }
                    let v = dup_value(&self.stack[si]);
                    proof {
                        assert(deep_vals(self.stack@)[si as int] == self.stack@[si as int]@);
                    }
                    self.write_global(nm, v);
                    proof {
                        match sp_step(cv, instr, stc) {
                            Ok(st1) => {
                                assert(self.vst() =~= st1);
                            },
                            Err(_) => {},
                        }
                    }
                },
                ByteCode::SetGlobalConst(nc, vc) => {
                    let nm: Vec<u8> = match self.read_name_const(proto, nc) {
                        Ok(nm) => nm,
                        Err(e) => { return Err(e) },
                    };
                    let v = match self.read_const(proto, vc) {
                        Ok(v) => v,
                        Err(e) => { return Err(e) },
                    };
                    self.write_global(nm, v);
                    proof {
                        match sp_step(cv, instr, stc) {
                            Ok(st1) => {
                                assert(self.vst() =~= st1);
                            },
                            Err(_) => {},
                        }
                    }
                },
                ByteCode::SetGlobalGlobal(nc, sc) => {
                    let nm: Vec<u8> = match self.read_name_const(proto, nc) {
                        Ok(nm) => nm,
                        Err(e) => { return Err(e) },
                    };
                    let src_nm: Vec<u8> = match self.read_name_const(proto, sc) {
                        Ok(nm) => nm,
                        Err(e) => { return Err(e) },
                    };
                    let v = self.read_global(&src_nm);
                    self.write_global(nm, v);
                    proof {
                        match sp_step(cv, instr, stc) {
                            Ok(st1) => {
                                assert(self.vst() =~= st1);
                            },
                            Err(_) => {},
                        }
                    }
                },
                ByteCode::Call(f, _argc) => {
                    let fi: usize = f as usize;
                    if fi >= self.stack.len() {
                        return Err(LuaError::InvalidStackIndex);
                    }
                    let handle: Option<u8> = match &self.stack[fi] {
                        Value::Function(h) => Some(*h),
                        _ => None,
                    };
                    proof {
                        assert(deep_vals(self.stack@)[fi as int] == self.stack@[fi as int]@);
                    }
                    match handle {
                        None => { return Err(LuaError::NotCallable) },
                        Some(h) => {
                            if h != 0 {
                                return Err(LuaError::NativeCallFailed);
                            }
                            let v = self.stack.pop().unwrap();
                            self.output.push(v);
                            proof {
                                match sp_step(cv, instr, stc) {
                                    Ok(st1) => {
                                        assert(deep_vals(self.stack@) =~= stc.stack.drop_last());
                                        assert(deep_vals(self.output@) =~= stc.output.push(
                                            stc.stack.last(),
                                        ));
                                        assert(self.vst() =~= st1);
                                    },
                                    Err(_) => {},
                                }
                            }
                        },
                    }
                },
            }
            proof {
                assert(sp_run(cv, iv, old(self).vst()) == sp_run(cv, iv.skip(pc + 1), self.vst()));
            }
            pc += 1;
        }
        proof {
            assert(iv.skip(n as int) =~= Seq::<ByteCode>::empty());
        }
        Ok(())
    }
}

} // verus!
