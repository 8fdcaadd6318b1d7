//! End-to-end runs: source text through the lexer, the compiler and the
//! virtual machine.

use minilua::bytecode::ByteCode;
use minilua::lex::tokenize;
use minilua::parse::ParseProto;
use minilua::value::Value;
use minilua::vm::ExeState;

fn compile_src(src: &str) -> ParseProto {
    let toks = tokenize(&src.as_bytes().to_vec()).expect("lex");
    let mut proto = ParseProto::new(toks);
    proto.compile().expect("compile");
    proto
}

fn run_proto(proto: &ParseProto) -> ExeState {
    let mut state = ExeState::new();
    state.run(proto).expect("run");
    state
}

fn global_of(state: &ExeState, name: &[u8]) -> Option<Value> {
    for (k, v) in state.globals.iter() {
        if k.as_slice() == name {
            return Some(v.clone());
        }
    }
    None
}

#[test]
fn print_string_literal() {
    let proto = compile_src("print(\"hello\")");
    assert_eq!(
        proto.constants,
        vec![Value::String(b"print".to_vec()), Value::String(b"hello".to_vec())]
    );
    assert_eq!(
        proto.instructions,
        vec![ByteCode::GetGlobal(0, 0), ByteCode::LoadConstant(1, 1), ByteCode::Call(0, 1)]
    );
    let state = run_proto(&proto);
    assert_eq!(state.output, vec![Value::String(b"hello".to_vec())]);
}

#[test]
fn print_bare_string_argument() {
    // a bare string literal after the name is one-argument call shorthand
    let proto = compile_src("print \"hi\"");
    assert_eq!(
        proto.instructions,
        vec![ByteCode::GetGlobal(0, 0), ByteCode::LoadConstant(1, 1), ByteCode::Call(0, 1)]
    );
    let state = run_proto(&proto);
    assert_eq!(state.output, vec![Value::String(b"hi".to_vec())]);
}

#[test]
fn local_then_print() {
    let proto = compile_src("local a = 10 print(a)");
    assert_eq!(proto.constants, vec![Value::String(b"print".to_vec())]);
    assert_eq!(
        proto.instructions,
        vec![
            ByteCode::LoadInt(0, 10),
            ByteCode::GetGlobal(1, 0),
            ByteCode::Move(2, 0),
            ByteCode::Call(1, 1),
        ]
    );
    let state = run_proto(&proto);
    assert_eq!(state.output, vec![Value::Integer(10)]);
}

#[test]
fn assign_new_global_constant() {
    let proto = compile_src("x = 1");
    assert_eq!(proto.constants, vec![Value::String(b"x".to_vec()), Value::Integer(1)]);
    assert_eq!(proto.instructions, vec![ByteCode::SetGlobalConst(0, 1)]);
    let state = run_proto(&proto);
    assert_eq!(global_of(&state, b"x"), Some(Value::Integer(1)));
}

#[test]
fn assign_global_from_unbound_global() {
    let proto = compile_src("a = b");
    assert_eq!(
        proto.constants,
        vec![Value::String(b"a".to_vec()), Value::String(b"b".to_vec())]
    );
    assert_eq!(proto.instructions, vec![ByteCode::SetGlobalGlobal(0, 1)]);
    let state = run_proto(&proto);
    assert_eq!(global_of(&state, b"a"), Some(Value::Nil));
    assert_eq!(global_of(&state, b"b"), None);
}

#[test]
fn assign_global_from_local() {
    let proto = compile_src("local a = 7 b = a");
    assert_eq!(
        proto.instructions,
        vec![ByteCode::LoadInt(0, 7), ByteCode::SetGlobal(0, 0)]
    );
    let state = run_proto(&proto);
    assert_eq!(global_of(&state, b"b"), Some(Value::Integer(7)));
}

#[test]
fn assign_existing_local_overwrites_slot() {
    // `a = 2` on a declared local takes the declaration's own path and
    // overwrites slot 0 in place
    let proto = compile_src("local a = 1 a = 2 print(a)");
    assert_eq!(
        proto.instructions,
        vec![
            ByteCode::LoadInt(0, 1),
            ByteCode::LoadInt(0, 2),
            ByteCode::GetGlobal(1, 0),
            ByteCode::Move(2, 0),
            ByteCode::Call(1, 1),
        ]
    );
    let state = run_proto(&proto);
    assert_eq!(state.output, vec![Value::Integer(2)]);
}

#[test]
fn shadowing_declaration_gets_new_slot() {
    let proto = compile_src("local a = 1 local a = 2 print(a)");
    assert_eq!(
        proto.instructions,
        vec![
            ByteCode::LoadInt(0, 1),
            ByteCode::LoadInt(1, 2),
            ByteCode::GetGlobal(2, 0),
            ByteCode::Move(3, 1),
            ByteCode::Call(2, 1),
        ]
    );
    let state = run_proto(&proto);
    assert_eq!(state.output, vec![Value::Integer(2)]);
}

#[test]
fn global_read_default_is_nil() {
    let proto = compile_src("print(nothing)");
    let state = run_proto(&proto);
    assert_eq!(state.output, vec![Value::Nil]);
}

#[test]
fn equal_literals_share_one_pool_entry() {
    let proto = compile_src("x = \"s\" y = \"s\"");
    assert_eq!(
        proto.constants,
        vec![
            Value::String(b"x".to_vec()),
            Value::String(b"s".to_vec()),
            Value::String(b"y".to_vec()),
        ]
    );
    assert_eq!(
        proto.instructions,
        vec![ByteCode::SetGlobalConst(0, 1), ByteCode::SetGlobalConst(2, 1)]
    );
}

#[test]
fn print_parenthesized_expression_forms() {
    let proto = compile_src("print(true) print(nil) print(\"z\")");
    let state = run_proto(&proto);
    assert_eq!(
        state.output,
        vec![Value::Bool(true), Value::Nil, Value::String(b"z".to_vec())]
    );
}

#[test]
fn large_integer_literal_goes_to_pool() {
    let proto = compile_src("local a = 32768 print(a)");
    assert_eq!(proto.instructions[0], ByteCode::LoadConstant(0, 0));
    assert_eq!(proto.constants[0], Value::Integer(32768));
    let state = run_proto(&proto);
    assert_eq!(state.output, vec![Value::Integer(32768)]);
}

#[test]
fn small_integer_literal_is_immediate() {
    let proto = compile_src("local a = 32767");
    assert_eq!(proto.instructions, vec![ByteCode::LoadInt(0, 32767)]);
    assert!(proto.constants.is_empty());
}
