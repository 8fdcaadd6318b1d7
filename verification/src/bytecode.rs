use vstd::prelude::*;

verus! {

/// One fixed-shape instruction of the virtual machine.
///
/// Operands are 8-bit stack-slot or constant-pool indices, except the
/// 16-bit immediate of `LoadInt` and the boolean of `LoadBool`. The set
/// is deliberately non-orthogonal: an assignment to a global is a single
/// specialized store, never a load followed by a generic store.
#[derive(Clone, Copy, Debug, PartialEq, Eq, Structural)]
pub enum ByteCode {
    /// Read a global by the name in the pool and write it to a stack slot:
    /// (dst-slot, name-const-idx).
    GetGlobal(u8, u8),
    /// Copy a pool constant to a stack slot: (dst-slot, const-idx).
    LoadConstant(u8, u8),
    /// Write nil to a stack slot: (dst-slot).
    LoadNil(u8),
    /// Write a boolean to a stack slot: (dst-slot, value).
    LoadBool(u8, bool),
    /// Write a small integer immediate to a stack slot: (dst-slot, value).
    LoadInt(u8, i16),
    /// global = local: (name-const-idx, src-slot).
    SetGlobal(u8, u8),
    /// global = constant: (name-const-idx, value-const-idx).
    SetGlobalConst(u8, u8),
    /// global = global, looked up live at run time:
    /// (dst-name-const-idx, src-name-const-idx).
    SetGlobalGlobal(u8, u8),
    /// Copy one stack slot to another: (dst-slot, src-slot).
    Move(u8, u8),
    /// Call the value in a stack slot: (callee-slot, argument count).
    Call(u8, u8),
}

/// The stack slot an instruction writes, if any. The specialized global
/// stores and the call write no slot.
pub open spec fn dst_slot_of(i: ByteCode) -> Option<u8> {
    match i {
        ByteCode::GetGlobal(d, _) => Some(d),
        ByteCode::LoadConstant(d, _) => Some(d),
        ByteCode::LoadNil(d) => Some(d),
        ByteCode::LoadBool(d, _) => Some(d),
        ByteCode::LoadInt(d, _) => Some(d),
        ByteCode::Move(d, _) => Some(d),
        ByteCode::SetGlobal(_, _) => None,
        ByteCode::SetGlobalConst(_, _) => None,
        ByteCode::SetGlobalGlobal(_, _) => None,
        ByteCode::Call(_, _) => None,
    }
}

} // verus!
