use vstd::prelude::*;

use crate::error::LuaError;
use vstd::string::StringSliceAdditionalSpecFns;

verus! {

/// One lexical token of the source language.
///
/// The full keyword and symbol alphabet is scanned even though the
/// grammar below uses only a handful of them: an unexpected token is the
/// parser's error to report, not the lexer's. A numeric literal with a
/// dot is handed on as `FloatLit`, still carrying its spelling: turning
/// a spelling into an IEEE 754 bit pattern is the host's work, and the
/// compiler accepts the converted form as `Float`.
#[derive(Clone, Debug, PartialEq, Eq)]
pub enum Token {
    And,
    Break,
    Do,
    Else,
    ElseIf,
    End,
    False,
    For,
    Function,
    Goto,
    If,
    In,
    Local,
    Nil,
    Not,
    Or,
    Repeat,
    Return,
    Then,
    True,
    Until,
    While,
    Add,
    Sub,
    Mul,
    Div,
    Mod,
    Pow,
    Len,
    Eq,
    Ne,
    Le,
    Lt,
    Ge,
    Gt,
    Assign,
    Lp,
    Rp,
    Lb,
    Rb,
    Ls,
    Rs,
    Semicolon,
    Colon,
    Comma,
    Dot,
    Concat,
    Vararg,
    Integer(i64),
    Float(u64),
    FloatLit(Vec<u8>),
    String(Vec<u8>),
    Name(Vec<u8>),
    Eos,
}

/// The numeric value of a run of decimal digit bytes.
pub open spec fn digits_val(s: Seq<u8>) -> int
    decreases s.len(),
{
    if s.len() == 0 {
        0
    } else {
        digits_val(s.drop_last()) * 10 + (s.last() - 48)
    }
}

pub open spec fn all_digits(s: Seq<u8>) -> bool {
    forall|j: int| 0 <= j < s.len() ==> 48 <= #[trigger] s[j] <= 57
}

proof fn lemma_digits_nonneg(s: Seq<u8>)
    requires
        all_digits(s),
    ensures
        digits_val(s) >= 0,
    decreases s.len(),
{
    if s.len() > 0 {
        assert(all_digits(s.drop_last()));
        lemma_digits_nonneg(s.drop_last());
    }
}

proof fn lemma_digits_prefix_le(s: Seq<u8>, k: int)
    requires
        all_digits(s),
        0 <= k <= s.len(),
    ensures
        digits_val(s.take(k)) <= digits_val(s),
    decreases s.len() - k,
{
    if k < s.len() {
        let t = s.take(k + 1);
        assert(t.drop_last() =~= s.take(k));
        assert(all_digits(t));
        lemma_digits_nonneg(s.take(k));
        assert(digits_val(t) == digits_val(s.take(k)) * 10 + (s[k] - 48));
        assert(digits_val(s.take(k)) <= digits_val(t));
        lemma_digits_prefix_le(s, k + 1);
        assert(s.take(s.len() as int) =~= s);
    } else {
        assert(s.take(k) =~= s);
    }
}

/// The signed 64-bit integer spelled by a run of digit bytes, or
/// `MalformedNumber` where the value does not fit.
pub fn parse_int(buf: &Vec<u8>) -> (r: Result<i64, LuaError>)
    requires
        all_digits(buf@),
    ensures
        match r {
            Ok(v) => v == digits_val(buf@) && digits_val(buf@) <= i64::MAX,
            Err(e) => e == LuaError::MalformedNumber && digits_val(buf@) > i64::MAX,
        },
{
    let n: usize = buf.len();
    let mut acc: i64 = 0;
    let mut i: usize = 0;
    while i < n
        invariant
            n == buf.len(),
            i <= n,
            all_digits(buf@),
            0 <= acc == digits_val(buf@.take(i as int)),
        decreases n - i,
    {
        let d: i64 = (buf[i] - 48) as i64;
        if acc > (i64::MAX - d) / 10 {
            proof {
                assert(buf@.take(i + 1).drop_last() =~= buf@.take(i as int));
                assert(digits_val(buf@.take(i + 1)) == acc * 10 + d);
                assert(acc * 10 + d > i64::MAX) by (nonlinear_arith)
                    requires
                        acc > (i64::MAX - d) / 10,
                        0 <= d <= 9,
                        acc >= 0,
                {}
                lemma_digits_prefix_le(buf@, i + 1);
            }
            return Err(LuaError::MalformedNumber);
        }
        proof {
            assert(acc * 10 + d <= i64::MAX) by (nonlinear_arith)
                requires
                    acc <= (i64::MAX - d) / 10,
                    0 <= d <= 9,
                    acc >= 0,
            {}
            assert(buf@.take(i + 1).drop_last() =~= buf@.take(i as int));
        }
        acc = acc * 10 + d;
        i += 1;
    }
    proof {
        assert(buf@.take(n as int) =~= buf@);
    }
    Ok(acc)
}

/// Whether a byte vector spells exactly the given literal.
fn is_lit(s: &Vec<u8>, lit: &str) -> (r: bool)
    ensures
        r == (s@ == lit.spec_bytes()),
{
    let lb: &[u8] = lit.as_bytes();
    if s.len() != lb.len() {
        assert(s@.len() != lit.spec_bytes().len());
        return false;
    }
    let n: usize = s.len();
    let mut i: usize = 0;
    while i < n
        invariant
            n == s.len() == lb@.len(),
            lb@ == lit.spec_bytes(),
            i <= n,
            forall|j: int| 0 <= j < i ==> s@[j] == lb@[j],
        decreases n - i,
    {
        if s[i] != lb[i] {
            return false;
        }
        i += 1;
    }
    assert(s@ =~= lit.spec_bytes());
    true
}

/// The keyword token a name spells, else the name itself.
fn keyword_token(buf: Vec<u8>) -> (t: Token)
    ensures
        match kw_of(buf@) {
            Some(k) => t == k,
            None => t matches Token::Name(n) && n@ == buf@,
        },
{
    if is_lit(&buf, "and") {
        Token::And
    } else if is_lit(&buf, "break") {
        Token::Break
    } else if is_lit(&buf, "do") {
        Token::Do
    } else if is_lit(&buf, "else") {
        Token::Else
    } else if is_lit(&buf, "elseif") {
        Token::ElseIf
    } else if is_lit(&buf, "end") {
        Token::End
    } else if is_lit(&buf, "false") {
        Token::False
    } else if is_lit(&buf, "for") {
        Token::For
    } else if is_lit(&buf, "function") {
        Token::Function
    } else if is_lit(&buf, "goto") {
        Token::Goto
    } else if is_lit(&buf, "if") {
        Token::If
    } else if is_lit(&buf, "in") {
        Token::In
    } else if is_lit(&buf, "local") {
        Token::Local
    } else if is_lit(&buf, "nil") {
        Token::Nil
    } else if is_lit(&buf, "not") {
        Token::Not
    } else if is_lit(&buf, "or") {
        Token::Or
    } else if is_lit(&buf, "repeat") {
        Token::Repeat
    } else if is_lit(&buf, "return") {
        Token::Return
    } else if is_lit(&buf, "then") {
        Token::Then
    } else if is_lit(&buf, "true") {
        Token::True
    } else if is_lit(&buf, "until") {
        Token::Until
    } else if is_lit(&buf, "while") {
        Token::While
    } else {
        Token::Name(buf)
    }
}

pub open spec fn is_ws_byte(b: u8) -> bool {
    b == 32 || b == 10 || b == 13 || b == 9
}

pub open spec fn is_digit_byte(b: u8) -> bool {
    48 <= b <= 57
}

pub open spec fn is_name_start_byte(b: u8) -> bool {
    (97 <= b <= 122) || (65 <= b <= 90) || b == 95
}

pub open spec fn is_name_byte(b: u8) -> bool {
    is_name_start_byte(b) || is_digit_byte(b)
}

pub open spec fn is_num_byte(b: u8) -> bool {
    is_digit_byte(b) || b == 46
}

/// The position of the first non-whitespace byte at or after `i`.
pub open spec fn ws_end(code: Seq<u8>, i: int) -> int
    decreases code.len() - i,
{
    if 0 <= i < code.len() && is_ws_byte(code[i]) {
        ws_end(code, i + 1)
    } else {
        i
    }
}

/// The position just past a run of name bytes starting at `i`.
pub open spec fn name_end(code: Seq<u8>, i: int) -> int
    decreases code.len() - i,
{
    if 0 <= i < code.len() && is_name_byte(code[i]) {
        name_end(code, i + 1)
    } else {
        i
    }
}

/// The position just past a run of digit-or-dot bytes starting at `i`.
pub open spec fn num_end(code: Seq<u8>, i: int) -> int
    decreases code.len() - i,
{
    if 0 <= i < code.len() && is_num_byte(code[i]) {
        num_end(code, i + 1)
    } else {
        i
    }
}

/// The position of the closing quote or end marker of a string literal
/// whose contents start at `i`.
pub open spec fn str_scan_end(code: Seq<u8>, i: int) -> int
    decreases code.len() - i,
{
    if 0 <= i < code.len() && code[i] != 34 && code[i] != 0 {
        str_scan_end(code, i + 1)
    } else {
        i
    }
}

/// A zero byte just after a name or number is consumed along with it.
pub open spec fn zskip(code: Seq<u8>, e: int) -> int {
    if 0 <= e < code.len() && code[e] == 0 {
        e + 1
    } else {
        e
    }
}

/// How many dot bytes a numeric lexeme holds.
pub open spec fn dots_in(s: Seq<u8>) -> int
    decreases s.len(),
{
    if s.len() == 0 {
        0
    } else {
        dots_in(s.drop_last()) + if s.last() == 46 {
            1int
        } else {
            0int
        }
    }
}

/// The keyword a name's bytes spell, if any.
pub open spec fn kw_of(s: Seq<u8>) -> Option<Token> {
    if s == "and".spec_bytes() {
        Some(Token::And)
    } else if s == "break".spec_bytes() {
        Some(Token::Break)
    } else if s == "do".spec_bytes() {
        Some(Token::Do)
    } else if s == "else".spec_bytes() {
        Some(Token::Else)
    } else if s == "elseif".spec_bytes() {
        Some(Token::ElseIf)
    } else if s == "end".spec_bytes() {
        Some(Token::End)
    } else if s == "false".spec_bytes() {
        Some(Token::False)
    } else if s == "for".spec_bytes() {
        Some(Token::For)
    } else if s == "function".spec_bytes() {
        Some(Token::Function)
    } else if s == "goto".spec_bytes() {
        Some(Token::Goto)
    } else if s == "if".spec_bytes() {
        Some(Token::If)
    } else if s == "in".spec_bytes() {
        Some(Token::In)
    } else if s == "local".spec_bytes() {
        Some(Token::Local)
    } else if s == "nil".spec_bytes() {
        Some(Token::Nil)
    } else if s == "not".spec_bytes() {
        Some(Token::Not)
    } else if s == "or".spec_bytes() {
        Some(Token::Or)
    } else if s == "repeat".spec_bytes() {
        Some(Token::Repeat)
    } else if s == "return".spec_bytes() {
        Some(Token::Return)
    } else if s == "then".spec_bytes() {
        Some(Token::Then)
    } else if s == "true".spec_bytes() {
        Some(Token::True)
    } else if s == "until".spec_bytes() {
        Some(Token::Until)
    } else if s == "while".spec_bytes() {
        Some(Token::While)
    } else {
        None
    }
}

/// The token a lone symbol byte spells, if any. The dot and the equals
/// sign are not here: they take lookahead.
pub open spec fn sym_of(b: u8) -> Option<Token> {
    if b == 40 {
        Some(Token::Lp)
    } else if b == 41 {
        Some(Token::Rp)
    } else if b == 123 {
        Some(Token::Lb)
    } else if b == 125 {
        Some(Token::Rb)
    } else if b == 91 {
        Some(Token::Ls)
    } else if b == 93 {
        Some(Token::Rs)
    } else if b == 43 {
        Some(Token::Add)
    } else if b == 45 {
        Some(Token::Sub)
    } else if b == 42 {
        Some(Token::Mul)
    } else if b == 47 {
        Some(Token::Div)
    } else if b == 37 {
        Some(Token::Mod)
    } else if b == 94 {
        Some(Token::Pow)
    } else if b == 35 {
        Some(Token::Len)
    } else if b == 59 {
        Some(Token::Semicolon)
    } else if b == 58 {
        Some(Token::Colon)
    } else if b == 44 {
        Some(Token::Comma)
    } else {
        None
    }
}

/// What a successful scan at `start` returns: the token standing there
/// after whitespace, and the cursor just past it.
pub open spec fn scan_ok(code: Seq<u8>, start: int, t: Token, j: int) -> bool {
    let i = ws_end(code, start);
    if i >= code.len() {
        t == Token::Eos && j == i
    } else if code[i] == 0 {
        t == Token::Eos && j == i + 1
    } else if code[i] == 34 {
        let e = str_scan_end(code, i + 1);
        e < code.len() && code[e] == 34 && (t matches Token::String(s) && s@ == code.subrange(
            i + 1,
            e,
        )) && j == e + 1
    } else if is_name_start_byte(code[i]) {
        let e = name_end(code, i + 1);
        j == zskip(code, e) && (match kw_of(code.subrange(i, e)) {
            Some(k) => t == k,
            None => t matches Token::Name(nm) && nm@ == code.subrange(i, e),
        })
    } else if is_digit_byte(code[i]) {
        let e = num_end(code, i + 1);
        let lex = code.subrange(i, e);
        j == zskip(code, e) && (if dots_in(lex) == 0 {
            t matches Token::Integer(v) && v == digits_val(lex) && digits_val(lex) <= i64::MAX
        } else {
            dots_in(lex) == 1 && (t matches Token::FloatLit(s) && s@ == lex)
        })
    } else {
        match sym_of(code[i]) {
            Some(k) => t == k && j == i + 1,
            None => if code[i] == 46 {
                if i + 1 < code.len() && code[i + 1] == 46 {
                    if i + 2 < code.len() && code[i + 2] == 46 {
                        t == Token::Vararg && j == i + 3
                    } else {
                        t == Token::Concat && j == i + 2
                    }
                } else {
                    t == Token::Dot && j == i + 1
                }
            } else if code[i] == 61 {
                if i + 1 < code.len() && code[i + 1] == 61 {
                    t == Token::Eq && j == i + 2
                } else {
                    t == Token::Assign && j == i + 1
                }
            } else {
                false
            },
        }
    }
}

/// Exactly when, and with which fault, a scan at `start` fails: an
/// unclosed string, a numeric literal with two dots or past 64 signed
/// bits, or a byte that starts no token.
pub open spec fn scan_fault(code: Seq<u8>, start: int, e: LuaError) -> bool {
    let i = ws_end(code, start);
    if i >= code.len() {
        false
    } else if code[i] == 34 {
        let se = str_scan_end(code, i + 1);
        (se >= code.len() || code[se] == 0) && e == LuaError::UnterminatedString
    } else if is_digit_byte(code[i]) {
        let lex = code.subrange(i, num_end(code, i + 1));
        e == LuaError::MalformedNumber && (dots_in(lex) >= 2 || (dots_in(lex) == 0 && digits_val(
            lex,
        ) > i64::MAX))
    } else if code[i] == 0 || is_name_start_byte(code[i]) || sym_of(code[i]) is Some || code[i]
        == 46 || code[i] == 61 {
        false
    } else {
        e == LuaError::UnexpectedChar(code[i])
    }
}

/// Scans one token of `code` starting at `start`, skipping whitespace
/// first, and returns it with the position just past it. A zero byte in
/// the source acts as an end marker, as a byte-wise scanner sees it.
pub fn scan(code: &Vec<u8>, start: usize) -> (r: Result<(Token, usize), LuaError>)
    requires
        start <= code@.len(),
    ensures
        (r matches Ok(p) ==> start <= p.1 <= code@.len() && (!(p.0 is Eos) ==> p.1 > start)),
        (r matches Ok(p) ==> scan_ok(code@, start as int, p.0, p.1 as int)),
        (r matches Err(e) ==> scan_fault(code@, start as int, e)),
{
    let n: usize = code.len();
    let mut i: usize = start;
    while i < n && (code[i] == 32 || code[i] == 10 || code[i] == 13 || code[i] == 9)
        invariant
            n == code@.len(),
            start <= i <= n,
            ws_end(code@, start as int) == ws_end(code@, i as int),
        decreases n - i,
    {
        i += 1;
    }
    proof {
        assert(ws_end(code@, start as int) == i as int);
    }
    if i >= n {
        return Ok((Token::Eos, i));
    }
    let b: u8 = code[i];
    if b == 0 {
        return Ok((Token::Eos, i + 1));
    }
    if b == 34 {
        // a double quote opens a string literal
        let mut buf: Vec<u8> = Vec::new();
        let mut j: usize = i + 1;
        proof {
            assert(buf@ =~= code@.subrange(i + 1, j as int));
        }
        while j < n && code[j] != 34 && code[j] != 0
            invariant
                n == code@.len(),
                i < j <= n,
                str_scan_end(code@, i + 1) == str_scan_end(code@, j as int),
                buf@ == code@.subrange(i + 1, j as int),
            decreases n - j,
        {
            buf.push(code[j]);
            proof {
                assert(code@.subrange(i + 1, j + 1) =~= code@.subrange(i + 1, j as int).push(
                    code@[j as int],
                ));
            }
            j += 1;
        }
        proof {
            assert(str_scan_end(code@, i + 1) == j as int);
        }
        if j >= n || code[j] == 0 {
            return Err(LuaError::UnterminatedString);
        }
        return Ok((Token::String(buf), j + 1));
    }
    if (97 <= b && b <= 122) || (65 <= b && b <= 90) || b == 95 {
        let mut buf: Vec<u8> = Vec::new();
        buf.push(b);
        let mut j: usize = i + 1;
        proof {
            assert(buf@ =~= code@.subrange(i as int, j as int));
        }
        while j < n
            && ((97 <= code[j] && code[j] <= 122) || (65 <= code[j] && code[j] <= 90) || (48
            <= code[j] && code[j] <= 57) || code[j] == 95)
            invariant
                n == code@.len(),
                i < j <= n,
                name_end(code@, i + 1) == name_end(code@, j as int),
                buf@ == code@.subrange(i as int, j as int),
            decreases n - j,
        {
            buf.push(code[j]);
            proof {
                assert(code@.subrange(i as int, j + 1) =~= code@.subrange(i as int, j as int).push(
                    code@[j as int],
                ));
            }
            j += 1;
        }
        proof {
            assert(name_end(code@, i + 1) == j as int);
        }
        // a zero byte ends the name and is consumed, as the scanner's
        // end marker
        if j < n && code[j] == 0 {
            j += 1;
        }
        return Ok((keyword_token(buf), j));
    }
    if 48 <= b && b <= 57 {
        let mut buf: Vec<u8> = Vec::new();
        buf.push(b);
        let mut dots: usize = 0;
        let mut j: usize = i + 1;
        proof {
            assert(buf@ =~= code@.subrange(i as int, j as int));
            assert(dots_in(Seq::<u8>::empty()) == 0);
            assert(buf@.drop_last() =~= Seq::<u8>::empty());
            assert(buf@.last() == b);
            assert(dots_in(buf@) == 0);
        }
        while j < n && ((48 <= code[j] && code[j] <= 57) || code[j] == 46)
            invariant
                n == code@.len(),
                i < j <= n,
                dots < j,
                buf@.len() > 0,
                dots == 0 ==> all_digits(buf@),
                num_end(code@, i + 1) == num_end(code@, j as int),
                buf@ == code@.subrange(i as int, j as int),
                dots == dots_in(buf@),
            decreases n - j,
        {
            if code[j] == 46 {
                dots += 1;
            }
            buf.push(code[j]);
            proof {
                assert(code@.subrange(i as int, j + 1) =~= code@.subrange(i as int, j as int).push(
                    code@[j as int],
                ));
                assert(buf@.drop_last() =~= code@.subrange(i as int, j as int));
            }
            j += 1;
        }
        proof {
            assert(num_end(code@, i + 1) == j as int);
        }
        if j < n && code[j] == 0 {
            j += 1;
        }
        if dots == 0 {
            let v: i64 = match parse_int(&buf) {
                Ok(v) => v,
                Err(e) => { return Err(e) },
            };
            return Ok((Token::Integer(v), j));
        }
        if dots == 1 {
            return Ok((Token::FloatLit(buf), j));
        }
        return Err(LuaError::MalformedNumber);
    }
    if b == 40 {
        return Ok((Token::Lp, i + 1));
    }
    if b == 41 {
        return Ok((Token::Rp, i + 1));
    }
    if b == 123 {
        return Ok((Token::Lb, i + 1));
    }
    if b == 125 {
        return Ok((Token::Rb, i + 1));
    }
    if b == 91 {
        return Ok((Token::Ls, i + 1));
    }
    if b == 93 {
        return Ok((Token::Rs, i + 1));
    }
    if b == 43 {
        return Ok((Token::Add, i + 1));
    }
    if b == 45 {
        return Ok((Token::Sub, i + 1));
    }
    if b == 42 {
        return Ok((Token::Mul, i + 1));
    }
    if b == 47 {
        return Ok((Token::Div, i + 1));
    }
    if b == 37 {
        return Ok((Token::Mod, i + 1));
    }
    if b == 94 {
        return Ok((Token::Pow, i + 1));
    }
    if b == 35 {
        return Ok((Token::Len, i + 1));
    }
    if b == 59 {
        return Ok((Token::Semicolon, i + 1));
    }
    if b == 58 {
        return Ok((Token::Colon, i + 1));
    }
    if b == 44 {
        return Ok((Token::Comma, i + 1));
    }
    if b == 46 {
        if i + 1 < n && code[i + 1] == 46 {
            if i + 2 < n && code[i + 2] == 46 {
                return Ok((Token::Vararg, i + 3));
            }
            return Ok((Token::Concat, i + 2));
        }
        return Ok((Token::Dot, i + 1));
    }
    if b == 61 {
        if i + 1 < n && code[i + 1] == 61 {
            return Ok((Token::Eq, i + 2));
        }
        return Ok((Token::Assign, i + 1));
    }
    Err(LuaError::UnexpectedChar(b))
}

/// A single-token-lookahead source over raw bytes. `peek` rescans the
/// same position `next` will consume, so the two always agree.
pub struct Lex {
    pub code: Vec<u8>,
    pub idx: usize,
}

impl Lex {
    pub fn new(code: Vec<u8>) -> (r: Lex)
        ensures
            r.code@ == code@,
            r.idx == 0,
    {
        Lex { code, idx: 0 }
    }

    pub open spec fn wf(&self) -> bool {
        self.idx <= self.code@.len()
    }

    /// The token at the cursor, without consuming it: the same token a
    /// `next` at this state would return.
    pub fn peek(&self) -> (r: Result<Token, LuaError>)
        requires
            self.wf(),
        ensures
            r matches Ok(t) ==> exists|j: int| scan_ok(self.code@, self.idx as int, t, j),
            r matches Err(e) ==> scan_fault(self.code@, self.idx as int, e),
    {
        match scan(&self.code, self.idx) {
            Ok((t, j)) => {
                proof {
                    assert(scan_ok(self.code@, self.idx as int, t, j as int));
                }
                Ok(t)
            },
            Err(e) => Err(e),
        }
    }

    /// The token at the cursor, consuming it. Every token but the end
    /// marker moves the cursor forward.
    pub fn next(&mut self) -> (r: Result<Token, LuaError>)
        requires
            old(self).wf(),
        ensures
            final(self).code@ == old(self).code@,
            final(self).wf(),
            old(self).idx <= final(self).idx,
            (r matches Ok(t) && !(t is Eos)) ==> final(self).idx > old(self).idx,
            r matches Ok(t) ==> scan_ok(
                old(self).code@,
                old(self).idx as int,
                t,
                final(self).idx as int,
            ),
            r matches Err(e) ==> scan_fault(old(self).code@, old(self).idx as int, e)
                && final(self).idx == old(self).idx,
    {
        match scan(&self.code, self.idx) {
            Ok((t, j)) => {
                self.idx = j;
                Ok(t)
            },
            Err(e) => Err(e),
        }
    }
}

/// Scanning is deterministic: two scans of the same bytes at the same
/// position stop at the same place and agree on the token, byte for
/// byte. So `peek` always shows the token `next` will consume.
pub proof fn lemma_scan_deterministic(
    code: Seq<u8>,
    start: int,
    t1: Token,
    j1: int,
    t2: Token,
    j2: int,
)
    requires
        scan_ok(code, start, t1, j1),
        scan_ok(code, start, t2, j2),
    ensures
        j1 == j2,
        t1 is Eos <==> t2 is Eos,
        t1 matches Token::Name(a) ==> t2 matches Token::Name(b) && a@ == b@,
        t1 matches Token::String(a) ==> t2 matches Token::String(b) && a@ == b@,
        t1 matches Token::FloatLit(a) ==> t2 matches Token::FloatLit(b) && a@ == b@,
        !(t1 is Name) && !(t1 is String) && !(t1 is FloatLit) ==> t2 == t1,
{
}

/// A token list is the tokenization of `code` from `start`: each token
/// is what a scan at the running cursor yields, and the single end
/// marker closes the list.
pub open spec fn toks_ok(code: Seq<u8>, start: int, toks: Seq<Token>) -> bool
    decreases toks.len(),
{
    toks.len() > 0 && exists|j: int|
        #[trigger] scan_ok(code, start, toks[0], j) && (if toks[0] is Eos {
            toks.len() == 1
        } else {
            toks_ok(code, j, toks.drop_first())
        })
}

/// Scans the whole source to its token list: the tokenization of the
/// bytes, ending in the end marker, which appears nowhere earlier.
pub fn tokenize(code: &Vec<u8>) -> (r: Result<Vec<Token>, LuaError>)
    ensures
        r matches Ok(toks) ==> toks@.len() >= 1 && toks@.last() is Eos && (forall|j: int|
            0 <= j < toks@.len() - 1 ==> !(#[trigger] toks@[j] is Eos)),
        r matches Ok(toks) ==> toks_ok(code@, 0, toks@),
        r matches Err(e) ==> exists|i: int| #[trigger] scan_fault(code@, i, e),
{
    let mut out: Vec<Token> = Vec::new();
    let mut i: usize = 0;
    let n: usize = code.len();
    proof {
        assert forall|suffix: Seq<Token>| toks_ok(code@, i as int, suffix) implies #[trigger]
        toks_ok(code@, 0, out@ + suffix) by {
            assert(out@ + suffix =~= suffix);
        }
    }
    loop
        invariant
            n == code@.len(),
            i <= n,
            forall|j: int| 0 <= j < out@.len() ==> !(#[trigger] out@[j] is Eos),
            forall|suffix: Seq<Token>|
                toks_ok(code@, i as int, suffix) ==> #[trigger] toks_ok(code@, 0, out@ + suffix),
        decreases n - i,
    {
        let ghost i0 = i as int;
        let ghost out0 = out@;
        match scan(code, i) {
            Err(e) => {
                proof {
                    assert(scan_fault(code@, i0, e));
                }
                return Err(e);
            },
            Ok((t, j)) => {
                i = j;
                if matches!(t, Token::Eos) {
                    out.push(t);
                    proof {
                        assert(out@.last() is Eos);
                        let single = seq![t];
                        assert(scan_ok(code@, i0, single[0], j as int));
                        assert(toks_ok(code@, i0, single));
                        assert(out0 + single =~= out@);
                        assert(toks_ok(code@, 0, out@));
                    }
                    return Ok(out);
                }
                out.push(t);
                proof {
                    assert forall|suffix: Seq<Token>|
                        toks_ok(code@, j as int, suffix) implies #[trigger] toks_ok(
                        code@,
                        0,
                        out@ + suffix,
                    ) by {
                        let s2 = seq![t] + suffix;
                        assert(s2[0] == t);
                        assert(s2.drop_first() =~= suffix);
                        assert(scan_ok(code@, i0, s2[0], j as int));
                        assert(toks_ok(code@, i0, s2));
                        assert(out0 + s2 =~= out@ + suffix);
                        assert(toks_ok(code@, 0, out0 + s2));
                    }
                }
            },
        }
    }
}

} // verus!
