//! The virtual machine alone, on hand-built programs: the stack's
//! no-holes rule, the global table, the call convention and every
//! runtime fault.

use minilua::bytecode::ByteCode;
use minilua::error::LuaError;
use minilua::parse::ParseProto;
use minilua::value::Value;
use minilua::vm::ExeState;

fn proto_of(constants: Vec<Value>, instructions: Vec<ByteCode>) -> ParseProto {
    ParseProto { constants, instructions, locals: Vec::new(), toks: Vec::new() }
}

#[test]
fn fresh_machine_has_only_print() {
    let state = ExeState::new();
    assert!(state.stack.is_empty());
    assert!(state.output.is_empty());
    assert_eq!(state.globals, vec![(b"print".to_vec(), Value::Function(0))]);
}

#[test]
fn stack_grows_by_one_and_overwrites_in_place() {
    let proto = proto_of(
        Vec::new(),
        vec![ByteCode::LoadInt(0, 1), ByteCode::LoadInt(1, 2), ByteCode::LoadInt(0, 3)],
    );
    let mut state = ExeState::new();
    state.run(&proto).unwrap();
    assert_eq!(state.stack, vec![Value::Integer(3), Value::Integer(2)]);
}

#[test]
fn stack_write_past_top_is_a_fault() {
    let proto = proto_of(Vec::new(), vec![ByteCode::LoadInt(1, 1)]);
    let mut state = ExeState::new();
    assert_eq!(state.run(&proto), Err(LuaError::InvalidStackIndex));
}

#[test]
fn move_from_missing_slot_is_a_fault() {
    let proto = proto_of(Vec::new(), vec![ByteCode::Move(0, 4)]);
    let mut state = ExeState::new();
    assert_eq!(state.run(&proto), Err(LuaError::InvalidStackIndex));
}

#[test]
fn constant_index_past_pool_is_a_fault() {
    let proto = proto_of(Vec::new(), vec![ByteCode::LoadConstant(0, 0)]);
    let mut state = ExeState::new();
    assert_eq!(state.run(&proto), Err(LuaError::InvalidConstantIndex));
}

#[test]
fn global_name_constant_must_be_a_string() {
    let proto = proto_of(vec![Value::Integer(9)], vec![ByteCode::GetGlobal(0, 0)]);
    let mut state = ExeState::new();
    assert_eq!(state.run(&proto), Err(LuaError::ExpectedStringConstant));
}

#[test]
fn calling_a_non_function_is_a_fault() {
    let proto = proto_of(
        Vec::new(),
        vec![ByteCode::LoadInt(0, 1), ByteCode::Call(0, 1)],
    );
    let mut state = ExeState::new();
    assert_eq!(state.run(&proto), Err(LuaError::NotCallable));
}

#[test]
fn unknown_native_handle_is_a_fault() {
    let proto = proto_of(
        vec![Value::Function(3)],
        vec![ByteCode::LoadConstant(0, 0), ByteCode::Call(0, 0)],
    );
    let mut state = ExeState::new();
    assert_eq!(state.run(&proto), Err(LuaError::NativeCallFailed));
}

#[test]
fn print_pops_the_top_of_the_stack() {
    let proto = proto_of(
        vec![Value::String(b"print".to_vec())],
        vec![
            ByteCode::GetGlobal(0, 0),
            ByteCode::LoadInt(1, 77),
            ByteCode::Call(0, 1),
        ],
    );
    let mut state = ExeState::new();
    state.run(&proto).unwrap();
    assert_eq!(state.output, vec![Value::Integer(77)]);
    // the argument was popped; the callee stays below
    assert_eq!(state.stack, vec![Value::Function(0)]);
}

#[test]
fn global_store_overwrites_unconditionally() {
    let proto = proto_of(
        vec![
            Value::String(b"g".to_vec()),
            Value::Integer(1),
            Value::Integer(2),
        ],
        vec![
            ByteCode::SetGlobalConst(0, 1),
            ByteCode::SetGlobalConst(0, 2),
        ],
    );
    let mut state = ExeState::new();
    state.run(&proto).unwrap();
    let found: Vec<&Value> = state
        .globals
        .iter()
        .filter(|(k, _)| k.as_slice() == b"g")
        .map(|(_, v)| v)
        .collect();
    assert_eq!(found, vec![&Value::Integer(2)]);
}

#[test]
fn global_to_global_copy_is_a_live_lookup() {
    let proto = proto_of(
        vec![
            Value::String(b"a".to_vec()),
            Value::String(b"b".to_vec()),
            Value::Integer(5),
        ],
        vec![
            ByteCode::SetGlobalConst(1, 2),
            ByteCode::SetGlobalGlobal(0, 1),
        ],
    );
    let mut state = ExeState::new();
    state.run(&proto).unwrap();
    let a = state
        .globals
        .iter()
        .find(|(k, _)| k.as_slice() == b"a")
        .map(|(_, v)| v.clone());
    assert_eq!(a, Some(Value::Integer(5)));
}

#[test]
fn empty_program_leaves_machine_untouched() {
    let proto = proto_of(Vec::new(), Vec::new());
    let mut state = ExeState::new();
    state.run(&proto).unwrap();
    assert!(state.stack.is_empty());
    assert!(state.output.is_empty());
}

#[test]
fn machine_stops_at_first_fault() {
    let proto = proto_of(
        Vec::new(),
        vec![
            ByteCode::LoadInt(0, 1),
            ByteCode::Move(0, 9),
            ByteCode::LoadInt(0, 2),
        ],
    );
    let mut state = ExeState::new();
    assert_eq!(state.run(&proto), Err(LuaError::InvalidStackIndex));
    // the first instruction had already taken effect
    assert_eq!(state.stack, vec![Value::Integer(1)]);
}

#[test]
fn independent_machines_share_nothing() {
    let proto = proto_of(
        vec![Value::String(b"x".to_vec()), Value::Integer(1)],
        vec![ByteCode::SetGlobalConst(0, 1)],
    );
    let mut first = ExeState::new();
    first.run(&proto).unwrap();
    let second = ExeState::new();
    assert_eq!(second.globals.len(), 1);
    assert_eq!(first.globals.len(), 2);
}
