//! The compiler's bookkeeping: interning, slot allocation, and the
//! parse errors.

use minilua::error::LuaError;
use minilua::lex::{Token, tokenize};
use minilua::parse::ParseProto;
use minilua::value::Value;

fn compile_err(src: &str) -> LuaError {
    let toks = tokenize(&src.as_bytes().to_vec()).expect("lex");
    let mut proto = ParseProto::new(toks);
    proto.compile().expect_err("compile should fail")
}

#[test]
fn intern_same_value_twice_gives_same_index() {
    let mut proto = ParseProto::new(Vec::new());
    let i1 = proto.add_const(Value::Integer(5)).unwrap();
    let i2 = proto.add_const(Value::String(b"five".to_vec())).unwrap();
    let i3 = proto.add_const(Value::Integer(5)).unwrap();
    let i4 = proto.add_const(Value::String(b"five".to_vec())).unwrap();
    assert_eq!(i1, 0);
    assert_eq!(i2, 1);
    assert_eq!(i3, 0);
    assert_eq!(i4, 1);
    assert_eq!(proto.constants.len(), 2);
}

#[test]
fn intern_structurally_equal_strings_dedupe() {
    let mut proto = ParseProto::new(Vec::new());
    let a = proto.add_const(Value::String(b"abc".to_vec())).unwrap();
    let b = proto.add_const(Value::String(b"abc".to_vec())).unwrap();
    assert_eq!(a, b);
    assert_eq!(proto.constants.len(), 1);
}

#[test]
fn intern_floats_by_bit_pattern() {
    let mut proto = ParseProto::new(Vec::new());
    let a = proto.add_const(Value::Float(1.5f64.to_bits())).unwrap();
    let b = proto.add_const(Value::Float(1.5f64.to_bits())).unwrap();
    let c = proto.add_const(Value::Float(2.5f64.to_bits())).unwrap();
    assert_eq!(a, b);
    assert_ne!(a, c);
    assert_eq!(proto.constants.len(), 2);
}

#[test]
fn pool_overflows_at_257th_distinct_constant() {
    let mut proto = ParseProto::new(Vec::new());
    for i in 0..256i64 {
        let idx = proto.add_const(Value::Integer(i)).unwrap();
        assert_eq!(idx as i64, i);
    }
    // a value already in the pool still interns fine
    assert_eq!(proto.add_const(Value::Integer(0)).unwrap(), 0);
    // the 257th distinct value is refused, the pool untouched
    assert_eq!(
        proto.add_const(Value::Integer(256)),
        Err(LuaError::ConstantOverflow)
    );
    assert_eq!(proto.constants.len(), 256);
}

#[test]
fn nth_declaration_gets_slot_n() {
    let mut toks: Vec<Token> = Vec::new();
    for name in [b"a".to_vec(), b"b".to_vec(), b"c".to_vec()] {
        toks.push(Token::Local);
        toks.push(Token::Name(name));
        toks.push(Token::Assign);
        toks.push(Token::Integer(1));
    }
    toks.push(Token::Eos);
    let mut proto = ParseProto::new(toks);
    proto.compile().unwrap();
    assert_eq!(proto.resolve_local(&b"a".to_vec()), Some(0));
    assert_eq!(proto.resolve_local(&b"b".to_vec()), Some(1));
    assert_eq!(proto.resolve_local(&b"c".to_vec()), Some(2));
    assert_eq!(proto.resolve_local(&b"d".to_vec()), None);
}

#[test]
fn shadowing_resolves_to_higher_slot() {
    let mut toks: Vec<Token> = Vec::new();
    for name in [b"a".to_vec(), b"b".to_vec(), b"a".to_vec()] {
        toks.push(Token::Local);
        toks.push(Token::Name(name));
        toks.push(Token::Assign);
        toks.push(Token::Integer(1));
    }
    toks.push(Token::Eos);
    let mut proto = ParseProto::new(toks);
    proto.compile().unwrap();
    assert_eq!(proto.resolve_local(&b"a".to_vec()), Some(2));
    assert_eq!(proto.resolve_local(&b"b".to_vec()), Some(1));
}

#[test]
fn slot_table_overflows_past_256_locals() {
    let mut toks: Vec<Token> = Vec::new();
    for _ in 0..257 {
        toks.push(Token::Local);
        toks.push(Token::Name(b"a".to_vec()));
        toks.push(Token::Assign);
        toks.push(Token::Integer(1));
    }
    toks.push(Token::Eos);
    let mut proto = ParseProto::new(toks);
    assert_eq!(proto.compile(), Err(LuaError::SlotOverflow));
}

#[test]
fn float_literal_compiles_through_converted_token() {
    let toks = vec![
        Token::Local,
        Token::Name(b"a".to_vec()),
        Token::Assign,
        Token::Float(2.5f64.to_bits()),
        Token::Eos,
    ];
    let mut proto = ParseProto::new(toks);
    proto.compile().unwrap();
    assert_eq!(proto.constants, vec![Value::Float(2.5f64.to_bits())]);
}

#[test]
fn unconverted_float_literal_is_refused() {
    let toks = vec![
        Token::Local,
        Token::Name(b"a".to_vec()),
        Token::Assign,
        Token::FloatLit(b"2.5".to_vec()),
        Token::Eos,
    ];
    let mut proto = ParseProto::new(toks);
    assert_eq!(proto.compile(), Err(LuaError::RawFloat));
}

#[test]
fn statement_starting_with_operator_is_refused() {
    assert_eq!(compile_err("+ 1"), LuaError::UnexpectedToken);
}

#[test]
fn local_without_name_is_refused() {
    assert_eq!(compile_err("local 5 = 1"), LuaError::ExpectedName);
}

#[test]
fn local_without_assign_is_refused() {
    assert_eq!(compile_err("local a b"), LuaError::ExpectedAssign);
}

#[test]
fn call_without_closing_paren_is_refused() {
    assert_eq!(compile_err("print(a b"), LuaError::ExpectedRightParen);
}

#[test]
fn call_without_argument_form_is_refused() {
    assert_eq!(compile_err("print + 1"), LuaError::ExpectedArgument);
}

#[test]
fn assignment_rhs_operator_is_refused() {
    assert_eq!(compile_err("x = +"), LuaError::UnexpectedToken);
}

#[test]
fn truncated_assignment_is_refused() {
    assert_eq!(compile_err("x ="), LuaError::UnexpectedToken);
}

#[test]
fn truncated_local_is_refused() {
    assert_eq!(compile_err("local"), LuaError::ExpectedName);
}
