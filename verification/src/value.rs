use vstd::prelude::*;

verus! {

/// Mathematical model of a runtime value.
///
/// Strings are byte sequences (the language scans source byte-wise), a
/// floating-point constant is carried as its raw IEEE 754 bit pattern, a
/// native function and a table are identified by handle alone.
pub enum Val {
    Int(i64),
    FloatBits(u64),
    Str(Seq<u8>),
    Boolean(bool),
    Func(u8),
    NilV,
    Tab(usize),
}

/// A runtime value of the scripting language.
///
/// `Float` holds the raw IEEE 754 bit pattern of the number: equality,
/// and so constant interning, go by the bit pattern, which keeps
/// interning deterministic (two bit-identical NaN spellings dedupe).
/// The host converts a literal's spelling to bits and bits back to text.
/// `Function` names a host-provided native function by a small handle
/// (handle 0 is the pre-registered `print`). `Table` refers to a shared
/// table by arena handle; two table values are equal when their handles
/// are, never by contents.
#[derive(Clone, Debug, PartialEq, Eq)]
pub enum Value {
    Integer(i64),
    Float(u64),
    String(Vec<u8>),
    Bool(bool),
    Function(u8),
    Nil,
    Table(usize),
}

impl View for Value {
    type V = Val;

    open spec fn view(&self) -> Val {
        match self {
            Value::Integer(i) => Val::Int(*i),
            Value::Float(b) => Val::FloatBits(*b),
            Value::String(s) => Val::Str(s@),
            Value::Bool(b) => Val::Boolean(*b),
            Value::Function(h) => Val::Func(*h),
            Value::Nil => Val::NilV,
            Value::Table(h) => Val::Tab(*h),
        }
    }
}

/// A shared table: an ordered array part beside a key/value part.
/// The language's grammar has no table constructor yet, so nothing
/// builds one; the shape is here so values can refer to tables by handle.
pub struct Table {
    pub array: Vec<Value>,
    pub map: Vec<(Value, Value)>,
}

/// Byte-wise equality of two byte vectors.
pub fn bytes_eq(a: &Vec<u8>, b: &Vec<u8>) -> (r: bool)
    ensures
        r == (a@ == b@),
{
    if a.len() != b.len() {
        assert(a@ != b@) by {
            assert(a@.len() != b@.len());
        }
        return false;
    }
    let n: usize = a.len();
    let mut i: usize = 0;
    while i < n
        invariant
            n == a.len() == b.len(),
            i <= n,
            forall|j: int| 0 <= j < i ==> a@[j] == b@[j],
        decreases n - i,
    {
        if a[i] != b[i] {
            return false;
        }
        i += 1;
    }
    assert(a@ =~= b@);
    true
}

/// Structural equality of two values, as the constant pool's interning
/// compares them: scalars by contents, strings byte for byte, floats by
/// bit pattern, functions and tables by handle.
pub fn value_eq(a: &Value, b: &Value) -> (r: bool)
    ensures
        r == (a@ == b@),
{
    match (a, b) {
        (Value::Integer(x), Value::Integer(y)) => *x == *y,
        (Value::Float(x), Value::Float(y)) => *x == *y,
        (Value::String(x), Value::String(y)) => bytes_eq(x, y),
        (Value::Bool(x), Value::Bool(y)) => *x == *y,
        (Value::Function(x), Value::Function(y)) => *x == *y,
        (Value::Nil, Value::Nil) => true,
        (Value::Table(x), Value::Table(y)) => *x == *y,
        _ => false,
    }
}

/// Copy of a byte vector.
pub fn bytes_dup(a: &Vec<u8>) -> (r: Vec<u8>)
    ensures
        r@ == a@,
{
    let n: usize = a.len();
    let mut out: Vec<u8> = Vec::new();
    let mut i: usize = 0;
    while i < n
        invariant
            n == a.len(),
            i <= n,
            out@ == a@.take(i as int),
        decreases n - i,
    {
        out.push(a[i]);
        assert(out@ =~= a@.take(i + 1));
        i += 1;
    }
    assert(a@.take(n as int) =~= a@);
    out
}

/// Copy of a value, equal to the original in the model.
pub fn dup_value(v: &Value) -> (r: Value)
    ensures
        r@ == v@,
{
    match v {
        Value::Integer(i) => Value::Integer(*i),
        Value::Float(b) => Value::Float(*b),
        Value::String(s) => Value::String(bytes_dup(s)),
        Value::Bool(b) => Value::Bool(*b),
        Value::Function(h) => Value::Function(*h),
        Value::Nil => Value::Nil,
        Value::Table(h) => Value::Table(*h),
    }
}

} // verus!
