use vstd::prelude::*;

use crate::parser::{Stmt, StmtV, strings_view};
use crate::text::{all_digits, chars_of, decimal, decimal_string, digit_char, digits_value, is_ascii_digit, parse_i32_spec};

verus! {

broadcast use vstd::std_specs::vec::group_vec_axioms;

/// Runtime errors.
#[derive(Debug)]
pub enum RuntimeError {
    Message(String),
}

impl RuntimeError {
    pub open spec fn view(&self) -> Seq<char> {
        match self {
            RuntimeError::Message(m) => m@,
        }
    }

    /// The error's text, as it is shown to the user.
    pub fn display_string(&self) -> (s: String)
        ensures
            s@ == self.view(),
    {
        match self {
            RuntimeError::Message(m) => m.clone(),
        }
    }

    /// The error of an operation on values of the wrong types.
    pub fn type_mismatch() -> (e: RuntimeError)
        ensures
            e.view() == "type mismatch"@,
    {
        RuntimeError::Message(String::from_str("type mismatch"))
    }
}

impl vstd::std_specs::convert::FromSpecImpl<String> for RuntimeError {
    open spec fn obeys_from_spec() -> bool {
        true
    }

    open spec fn from_spec(s: String) -> Self {
        RuntimeError::Message(s)
    }
}

impl From<String> for RuntimeError {
    fn from(s: String) -> (e: RuntimeError)
        ensures
            e.view() == s@,
    {
        RuntimeError::Message(s)
    }
}

/// Values. A function value names the scope it was defined in (`captured_env`,
/// an index into the interpreter's scopes).
#[derive(Debug)]
pub enum Value {
    Int(i32),
    Str(String),
    Bool(bool),
    Null,
    Fn { name: String, args: Vec<String>, body: Box<Stmt>, captured_env: usize },
}

/// The mathematical content of a value.
pub enum ValueV {
    Int(i32),
    Str(Seq<char>),
    Bool(bool),
    Null,
    Fn(Seq<char>, Seq<Seq<char>>, StmtV, nat),
}

impl Value {
    pub open spec fn view(&self) -> ValueV {
        match self {
            Value::Int(n) => ValueV::Int(*n),
            Value::Str(s) => ValueV::Str(s@),
            Value::Bool(b) => ValueV::Bool(*b),
            Value::Null => ValueV::Null,
            Value::Fn { name, args, body, captured_env } => ValueV::Fn(
                name@,
                strings_view(args@),
                body.view(),
                *captured_env as nat,
            ),
        }
    }
}

/// The order of two values of the same kind.
#[derive(Clone, Copy, Debug, PartialEq, Eq, Structural)]
pub enum Order {
    Less,
    Equal,
    Greater,
}

/// Lexicographic order of character sequences (which for strings is the
/// order of their UTF-8 bytes).
pub open spec fn seq_order(a: Seq<char>, b: Seq<char>) -> Order
    decreases a.len(),
{
    if a.len() == 0 {
        if b.len() == 0 { Order::Equal } else { Order::Less }
    } else if b.len() == 0 {
        Order::Greater
    } else if a[0] < b[0] {
        Order::Less
    } else if a[0] > b[0] {
        Order::Greater
    } else {
        seq_order(a.drop_first(), b.drop_first())
    }
}

pub open spec fn int_order(a: int, b: int) -> Order {
    if a < b { Order::Less } else if a == b { Order::Equal } else { Order::Greater }
}

/// How two values compare: defined for two integers, two strings and two booleans.
pub open spec fn value_order(l: ValueV, r: ValueV) -> Option<Order> {
    match (l, r) {
        (ValueV::Int(a), ValueV::Int(b)) => Some(int_order(a as int, b as int)),
        (ValueV::Str(a), ValueV::Str(b)) => Some(seq_order(a, b)),
        (ValueV::Bool(a), ValueV::Bool(b)) => Some(int_order(if a { 1 } else { 0 }, if b { 1 } else { 0 })),
        _ => None,
    }
}

/// `==` on values: equal integers, strings or booleans; nothing else is equal.
pub open spec fn values_eq(l: ValueV, r: ValueV) -> bool {
    match (l, r) {
        (ValueV::Int(a), ValueV::Int(b)) => a == b,
        (ValueV::Str(a), ValueV::Str(b)) => a == b,
        (ValueV::Bool(a), ValueV::Bool(b)) => a == b,
        _ => false,
    }
}

pub open spec fn truthy(v: ValueV) -> bool {
    match v {
        ValueV::Int(n) => n != 0,
        ValueV::Bool(b) => b,
        ValueV::Str(s) => s.len() != 0,
        ValueV::Null => false,
        ValueV::Fn(..) => false,
    }
}

/// `s` repeated `n` times.
pub open spec fn repeat(s: Seq<char>, n: nat) -> Seq<char>
    decreases n,
{
    if n == 0 { seq![] } else { repeat(s, (n - 1) as nat) + s }
}

/// The outcome of an operation: a result, an error the language reports, a
/// fault (integer arithmetic that overflows or takes a remainder by zero, or
/// a call of a value that is not a function), or running out of steps.
pub enum Res<T> {
    Done(T),
    Error(Seq<char>),
    Fault(Seq<char>),
    Exhausted,
}

pub open spec fn in_i32(x: int) -> bool {
    i32::MIN <= x <= i32::MAX
}

pub open spec fn add_spec(l: ValueV, r: ValueV) -> Res<ValueV> {
    match (l, r) {
        (ValueV::Int(a), ValueV::Int(b)) => if in_i32(a + b) {
            Res::Done(ValueV::Int((a + b) as i32))
        } else {
            Res::Fault("attempt to add with overflow"@)
        },
        (ValueV::Str(a), ValueV::Str(b)) => Res::Done(ValueV::Str(a + b)),
        _ => Res::Error("type mismatch"@),
    }
}

pub open spec fn sub_spec(l: ValueV, r: ValueV) -> Res<ValueV> {
    match (l, r) {
        (ValueV::Int(a), ValueV::Int(b)) => if in_i32(a - b) {
            Res::Done(ValueV::Int((a - b) as i32))
        } else {
            Res::Fault("attempt to subtract with overflow"@)
        },
        _ => Res::Error("type mismatch"@),
    }
}

pub open spec fn mul_spec(l: ValueV, r: ValueV) -> Res<ValueV> {
    match (l, r) {
        (ValueV::Str(s), ValueV::Int(n)) => if n < 0 {
            Res::Error("cannot multiply string by negative integer"@)
        } else {
            Res::Done(ValueV::Str(repeat(s, n as nat)))
        },
        (ValueV::Int(n), ValueV::Str(s)) => if n < 0 {
            Res::Error("cannot multiply string by negative integer"@)
        } else {
            Res::Done(ValueV::Str(repeat(s, n as nat)))
        },
        (ValueV::Int(a), ValueV::Int(b)) => if in_i32(a * b) {
            Res::Done(ValueV::Int((a * b) as i32))
        } else {
            Res::Fault("attempt to multiply with overflow"@)
        },
        _ => Res::Error("type mismatch"@),
    }
}

/// Integer division rounding toward zero, as Rust's `/` does.
pub open spec fn trunc_div(a: int, b: int) -> int {
    if (a < 0) == (b < 0) { abs(a) / abs(b) } else { -(abs(a) / abs(b)) }
}

pub open spec fn abs(a: int) -> int {
    if a < 0 { -a } else { a }
}

/// The remainder of `trunc_div`, with the sign of `a`, as Rust's `%` gives it.
pub open spec fn trunc_rem(a: int, b: int) -> int {
    if a < 0 { -(abs(a) % abs(b)) } else { abs(a) % abs(b) }
}

pub open spec fn div_spec(l: ValueV, r: ValueV) -> Res<ValueV> {
    match (l, r) {
        (ValueV::Int(a), ValueV::Int(b)) => if b == 0 {
            Res::Error("cannot divide by zero"@)
        } else if a == i32::MIN && b == -1 {
            Res::Fault("attempt to divide with overflow"@)
        } else {
            Res::Done(ValueV::Int(trunc_div(a as int, b as int) as i32))
        },
        _ => Res::Error("type mismatch"@),
    }
}

pub open spec fn rem_spec(l: ValueV, r: ValueV) -> Res<ValueV> {
    match (l, r) {
        (ValueV::Int(a), ValueV::Int(b)) => if b == 0 {
            Res::Fault("attempt to calculate the remainder with a divisor of zero"@)
        } else if a == i32::MIN && b == -1 {
            Res::Fault("attempt to calculate the remainder with overflow"@)
        } else {
            Res::Done(ValueV::Int(trunc_rem(a as int, b as int) as i32))
        },
        _ => Res::Error("modulo not implemented for this type"@),
    }
}

pub open spec fn neg_spec(v: ValueV) -> Res<ValueV> {
    match v {
        ValueV::Int(a) => if a == i32::MIN {
            Res::Fault("attempt to negate with overflow"@)
        } else {
            Res::Done(ValueV::Int((-a) as i32))
        },
        _ => Res::Error("type mismatch"@),
    }
}

pub open spec fn not_spec(v: ValueV) -> Res<ValueV> {
    match v {
        ValueV::Bool(b) => Res::Done(ValueV::Bool(!b)),
        ValueV::Int(_) | ValueV::Str(_) => Res::Done(ValueV::Bool(!truthy(v))),
        ValueV::Null => Res::Error("cannot apply '!' to null"@),
        ValueV::Fn(..) => Res::Error("cannot apply '!' to function"@),
    }
}

/// How a value prints: integers in decimal, strings as they are, `true`,
/// `false`, `null`, and `fn<name>` for functions.
pub open spec fn display(v: ValueV) -> Seq<char> {
    match v {
        ValueV::Int(n) => if n < 0 { "-"@ + decimal((-n) as nat) } else { decimal(n as nat) },
        ValueV::Str(s) => s,
        ValueV::Bool(b) => if b { "true"@ } else { "false"@ },
        ValueV::Null => "null"@,
        ValueV::Fn(name, _, _, _) => "fn<"@ + name + ">"@,
    }
}

pub open spec fn values_view(vs: Seq<Value>) -> Seq<ValueV> {
    Seq::new(vs.len(), |i: int| vs[i].view())
}

/// The outcome of an operation that gives a value or a runtime error.
pub open spec fn result_view(r: Result<Value, RuntimeError>) -> Res<ValueV> {
    match r {
        Ok(v) => Res::Done(v.view()),
        Err(e) => Res::Error(e.view()),
    }
}

/// `s` repeated `n` times.
pub fn repeat_string(s: &String, n: i32) -> (r: String)
    requires
        n >= 0,
    ensures
        r@ == repeat(s@, n as nat),
{
    let mut out = String::new();
    let mut i: i32 = 0;
    while i < n
        invariant
            0 <= i <= n,
            out@ == repeat(s@, i as nat),
        decreases n - i,
    {
        out.append(s.as_str());
        i = i + 1;
    }
    out
}

/// The lexicographic order of two strings.
pub fn str_order(a: &String, b: &String) -> (o: Order)
    ensures
        o == seq_order(a@, b@),
{
    let x = chars_of(a);
    let y = chars_of(b);
    let mut i: usize = 0;
    assert(x@.skip(0) =~= x@);
    assert(y@.skip(0) =~= y@);
    loop
        invariant
            i <= x@.len(),
            i <= y@.len(),
            x@ == a@,
            y@ == b@,
            seq_order(a@, b@) == seq_order(x@.skip(i as int), y@.skip(i as int)),
        decreases x@.len() - i,
    {
        if i == x.len() {
            if i == y.len() {
                return Order::Equal;
            } else {
                return Order::Less;
            }
        }
        if i == y.len() {
            return Order::Greater;
        }
        let c = x[i];
        let d = y[i];
        if c < d {
            return Order::Less;
        }
        if c > d {
            return Order::Greater;
        }
        assert(x@.skip(i as int).drop_first() =~= x@.skip(i + 1));
        assert(y@.skip(i as int).drop_first() =~= y@.skip(i + 1));
        i = i + 1;
    }
}

impl Value {
    /// A copy of the value.
    pub fn dup(&self) -> (r: Value)
        ensures
            r.view() == self.view(),
    {
        match self {
            Value::Int(n) => Value::Int(*n),
            Value::Str(s) => Value::Str(s.clone()),
            Value::Bool(b) => Value::Bool(*b),
            Value::Null => Value::Null,
            Value::Fn { name, args, body, captured_env } => Value::Fn {
                name: name.clone(),
                args: crate::parser::dup_strings(args),
                body: Box::new(body.dup()),
                captured_env: *captured_env,
            },
        }
    }

    /// Whether the value counts as true in a condition.
    pub fn is_truthy(&self) -> (b: bool)
        ensures
            b == truthy(self.view()),
    {
        match self {
            Value::Int(n) => !(*n == 0),
            Value::Bool(b) => *b,
            Value::Str(s) => s.as_str().unicode_len() != 0,
            Value::Null => false,
            Value::Fn { .. } => false,
        }
    }

    /// The boolean that `!` gives, or the error for `null` and functions.
    pub fn logical_not(&self) -> (r: Result<bool, RuntimeError>)
        ensures
            match not_spec(self.view()) {
                Res::Done(ValueV::Bool(b)) => r matches Ok(x) && x == b,
                Res::Error(m) => r matches Err(e) && e.view() == m,
                _ => false,
            },
    {
        match self {
            Value::Bool(b) => Ok(!*b),
            Value::Int(_) | Value::Str(_) => Ok(!self.is_truthy()),
            Value::Null => Err(RuntimeError::Message(String::from_str("cannot apply '!' to null"))),
            Value::Fn { .. } => Err(RuntimeError::Message(String::from_str("cannot apply '!' to function"))),
        }
    }

    /// `+`: integer addition and string concatenation.
    pub fn add(self, other: Value) -> (r: Result<Value, RuntimeError>)
        requires
            add_spec(self.view(), other.view()) !is Fault,
        ensures
            result_view(r) == add_spec(self.view(), other.view()),
    {
        match (self, other) {
            (Value::Int(a), Value::Int(b)) => Ok(Value::Int(a + b)),
            (Value::Str(a), Value::Str(b)) => {
                let mut s = a;
                s.append(b.as_str());
                Ok(Value::Str(s))
            },
            _ => Err(RuntimeError::type_mismatch()),
        }
    }

    /// `-` on integers.
    pub fn sub(self, other: Value) -> (r: Result<Value, RuntimeError>)
        requires
            sub_spec(self.view(), other.view()) !is Fault,
        ensures
            result_view(r) == sub_spec(self.view(), other.view()),
    {
        match (self, other) {
            (Value::Int(a), Value::Int(b)) => Ok(Value::Int(a - b)),
            _ => Err(RuntimeError::type_mismatch()),
        }
    }

    /// `*`: integer product, and a string repeated a non-negative number of times.
    pub fn mul(self, other: Value) -> (r: Result<Value, RuntimeError>)
        requires
            mul_spec(self.view(), other.view()) !is Fault,
        ensures
            result_view(r) == mul_spec(self.view(), other.view()),
    {
        match (self, other) {
            (Value::Str(s), Value::Int(n)) => {
                if n < 0 {
                    Err(RuntimeError::Message(String::from_str("cannot multiply string by negative integer")))
                } else {
                    Ok(Value::Str(repeat_string(&s, n)))
                }
            },
            (Value::Int(n), Value::Str(s)) => {
                if n < 0 {
                    Err(RuntimeError::Message(String::from_str("cannot multiply string by negative integer")))
                } else {
                    Ok(Value::Str(repeat_string(&s, n)))
                }
            },
            (Value::Int(a), Value::Int(b)) => Ok(Value::Int(a * b)),
            _ => Err(RuntimeError::type_mismatch()),
        }
    }

    /// `/` on integers, rounding toward zero; dividing by zero is an error.
    pub fn div(self, other: Value) -> (r: Result<Value, RuntimeError>)
        requires
            div_spec(self.view(), other.view()) !is Fault,
        ensures
            result_view(r) == div_spec(self.view(), other.view()),
    {
        match (self, other) {
            (Value::Int(a), Value::Int(b)) => {
                if b == 0 {
                    Err(RuntimeError::Message(String::from_str("cannot divide by zero")))
                } else {
                    Ok(Value::Int(i32_div(a, b)))
                }
            },
            _ => Err(RuntimeError::type_mismatch()),
        }
    }

    /// `%` on integers, with the sign of the left operand.
    pub fn rem(self, other: Value) -> (r: Result<Value, RuntimeError>)
        requires
            rem_spec(self.view(), other.view()) !is Fault,
        ensures
            result_view(r) == rem_spec(self.view(), other.view()),
    {
        match (self, other) {
            (Value::Int(a), Value::Int(b)) => Ok(Value::Int(i32_rem(a, b))),
            _ => Err(RuntimeError::Message(String::from_str("modulo not implemented for this type"))),
        }
    }

    /// Unary `-` on integers.
    pub fn neg(self) -> (r: Result<Value, RuntimeError>)
        requires
            neg_spec(self.view()) !is Fault,
        ensures
            result_view(r) == neg_spec(self.view()),
    {
        match self {
            Value::Int(a) => Ok(Value::Int(-a)),
            _ => Err(RuntimeError::type_mismatch()),
        }
    }

    /// Unary `!`.
    pub fn not(self) -> (r: Result<Value, RuntimeError>)
        ensures
            result_view(r) == not_spec(self.view()),
    {
        match self.logical_not() {
            Ok(b) => Ok(Value::Bool(b)),
            Err(e) => Err(e),
        }
    }

    /// How two values compare, where they are of the same kind.
    pub fn order(&self, other: &Value) -> (r: Option<Order>)
        ensures
            r == value_order(self.view(), other.view()),
    {
        match (self, other) {
            (Value::Int(a), Value::Int(b)) => Some(
                if *a < *b { Order::Less } else if *a == *b { Order::Equal } else { Order::Greater },
            ),
            (Value::Str(a), Value::Str(b)) => Some(str_order(a, b)),
            (Value::Bool(a), Value::Bool(b)) => Some(
                if !*a && *b { Order::Less } else if *a == *b { Order::Equal } else { Order::Greater },
            ),
            _ => None,
        }
    }

    /// The text that printing the value shows.
    pub fn display_string(&self) -> (s: String)
        ensures
            s@ == display(self.view()),
    {
        match self {
            Value::Int(n) => {
                if *n < 0 {
                    let mut s = String::from_str("-");
                    let d = decimal_string((-(*n as i64)) as usize);
                    s.append(d.as_str());
                    s
                } else {
                    decimal_string(*n as usize)
                }
            },
            Value::Str(s) => s.clone(),
            Value::Bool(b) => if *b { String::from_str("true") } else { String::from_str("false") },
            Value::Null => String::from_str("null"),
            Value::Fn { name, .. } => {
                let mut s = String::from_str("fn<");
                s.append(name.as_str());
                s.append(">");
                s
            },
        }
    }
}

impl PartialEq for Value {
    fn eq(&self, other: &Self) -> (r: bool) {
        match (self, other) {
            (Value::Int(a), Value::Int(b)) => *a == *b,
            (Value::Str(a), Value::Str(b)) => *a == *b,
            (Value::Bool(a), Value::Bool(b)) => *a == *b,
            _ => false,
        }
    }
}

impl vstd::std_specs::cmp::PartialEqSpecImpl for Value {
    open spec fn obeys_eq_spec() -> bool {
        true
    }

    open spec fn eq_spec(&self, other: &Self) -> bool {
        values_eq(self.view(), other.view())
    }
}

/// The standard ordering for an order of two values.
pub open spec fn std_order(o: Option<Order>) -> Option<std::cmp::Ordering> {
    match o {
        Some(Order::Less) => Some(std::cmp::Ordering::Less),
        Some(Order::Equal) => Some(std::cmp::Ordering::Equal),
        Some(Order::Greater) => Some(std::cmp::Ordering::Greater),
        None => None,
    }
}

impl PartialOrd for Value {
    fn partial_cmp(&self, other: &Self) -> (r: Option<std::cmp::Ordering>) {
        match self.order(other) {
            Some(Order::Less) => Some(std::cmp::Ordering::Less),
            Some(Order::Equal) => Some(std::cmp::Ordering::Equal),
            Some(Order::Greater) => Some(std::cmp::Ordering::Greater),
            None => None,
        }
    }
}

impl vstd::std_specs::cmp::PartialOrdSpecImpl for Value {
    open spec fn obeys_partial_cmp_spec() -> bool {
        true
    }

    open spec fn partial_cmp_spec(&self, other: &Self) -> Option<std::cmp::Ordering> {
        std_order(value_order(self.view(), other.view()))
    }
}

/// `a / b` on `i32`, as Rust computes it (rounding toward zero).
fn i32_div(a: i32, b: i32) -> (q: i32)
    requires
        b != 0,
        !(a == i32::MIN && b == -1),
    ensures
        q == trunc_div(a as int, b as int),
{
    let ua: u32 = if a < 0 { (-(a as i64)) as u32 } else { a as u32 };
    let ub: u32 = if b < 0 { (-(b as i64)) as u32 } else { b as u32 };
    let uq = ua / ub;
    proof {
        assert(uq <= ua) by (nonlinear_arith)
            requires
                uq == ua / ub,
                ub >= 1,
        ;
        if (a < 0) == (b < 0) && ua == 0x8000_0000u32 {
            assert(ub >= 2);
            assert(uq <= 0x4000_0000u32) by (nonlinear_arith)
                requires
                    uq == ua / ub,
                    ub >= 2,
                    ua == 0x8000_0000u32,
            ;
        }
    }
    if (a < 0) == (b < 0) {
        (uq as i64) as i32
    } else {
        (-(uq as i64)) as i32
    }
}

/// `a % b` on `i32`, as Rust computes it (the sign of `a`).
fn i32_rem(a: i32, b: i32) -> (r: i32)
    requires
        b != 0,
    ensures
        r == trunc_rem(a as int, b as int),
{
    let ua: u32 = if a < 0 { (-(a as i64)) as u32 } else { a as u32 };
    let ub: u32 = if b < 0 { (-(b as i64)) as u32 } else { b as u32 };
    let ur = ua % ub;
    if a < 0 {
        (-(ur as i64)) as i32
    } else {
        ur as i32
    }
}

/// The opposite of an order.
pub open spec fn flip(o: Order) -> Order {
    match o {
        Order::Less => Order::Greater,
        Order::Equal => Order::Equal,
        Order::Greater => Order::Less,
    }
}

proof fn lemma_seq_order(a: Seq<char>, b: Seq<char>)
    ensures
        seq_order(b, a) == flip(seq_order(a, b)),
        (seq_order(a, b) == Order::Equal) == (a == b),
    decreases a.len(),
{
    if a.len() == 0 && b.len() == 0 {
        assert(a =~= b);
    } else if a.len() > 0 && b.len() > 0 && a[0] == b[0] {
        lemma_seq_order(a.drop_first(), b.drop_first());
        if a.drop_first() == b.drop_first() {
            assert(a =~= b) by {
                assert forall|i: int| 0 <= i < a.len() implies a[i] == b[i] by {
                    if i > 0 {
                        assert(a[i] == a.drop_first()[i - 1]);
                        assert(b[i] == b.drop_first()[i - 1]);
                    }
                }
            }
        } else {
            assert(a != b) by {
                if a == b {
                    assert(a.drop_first() =~= b.drop_first());
                }
            }
        }
    } else if a.len() > 0 && b.len() > 0 {
        assert(a != b) by {
            if a == b {
                assert(a[0] == b[0]);
            }
        }
    }
}

/// Comparing is antisymmetric: `a < b` exactly when `b > a`; and two values
/// compare as equal exactly when `==` holds of them.
pub proof fn law_order_antisymmetric(a: ValueV, b: ValueV)
    ensures
        value_order(b, a) == match value_order(a, b) {
            Some(o) => Some(flip(o)),
            None => None,
        },
        (value_order(a, b) == Some(Order::Equal)) == values_eq(a, b),
{
    match (a, b) {
        (ValueV::Str(x), ValueV::Str(y)) => {
            lemma_seq_order(x, y);
        },
        _ => {},
    }
}

/// `!` on an integer, a string or a boolean gives the opposite of its
/// truthiness; on `null` and on functions it is an error.
pub proof fn law_not_negates_truthiness(v: ValueV)
    ensures
        match v {
            ValueV::Null | ValueV::Fn(..) => not_spec(v) is Error,
            _ => not_spec(v) == Res::Done(ValueV::Bool(!truthy(v))),
        },
{
}

/// `==` is symmetric.
pub proof fn law_eq_symmetric(a: ValueV, b: ValueV)
    ensures
        values_eq(a, b) == values_eq(b, a),
{
}

/// `*` does not depend on the order of its operands, for repetition of
/// strings as for integers.
pub proof fn law_mul_commutes(a: ValueV, b: ValueV)
    ensures
        mul_spec(a, b) == mul_spec(b, a),
{
    match (a, b) {
        (ValueV::Int(x), ValueV::Int(y)) => {
            assert(x * y == y * x) by (nonlinear_arith);
        },
        _ => {},
    }
}

/// A string repeated `n` times is `n` times as long.
pub proof fn law_repeat_len(s: Seq<char>, n: nat)
    ensures
        repeat(s, n).len() == s.len() * n,
    decreases n,
{
    if n == 0 {
        assert(s.len() * n == 0) by (nonlinear_arith)
            requires
                n == 0,
        ;
    } else {
        law_repeat_len(s, (n - 1) as nat);
        assert(s.len() * ((n - 1) as nat) + s.len() == s.len() * n) by (nonlinear_arith)
            requires
                n > 0,
        ;
    }
}

/// Integer `/` and `%` fit together: where the divisor is not zero and the
/// quotient fits, `(a / b) * b + a % b == a`, with a remainder smaller than
/// the divisor in size and of the sign of `a` (or zero).
pub proof fn law_div_rem(a: i32, b: i32)
    requires
        b != 0,
        !(a == i32::MIN && b == -1),
    ensures
        div_spec(ValueV::Int(a), ValueV::Int(b)) matches Res::Done(ValueV::Int(q))
            && rem_spec(ValueV::Int(a), ValueV::Int(b)) matches Res::Done(ValueV::Int(r))
            && q * b + r == a
            && abs(r as int) < abs(b as int)
            && (r == 0 || (r < 0) == (a < 0)),
{
    let x = abs(a as int);
    let y = abs(b as int);
    assert(x == (x / y) * y + x % y && 0 <= x % y < y && 0 <= x / y <= x) by (nonlinear_arith)
        requires
            x >= 0,
            y > 0,
    ;
    if x == 0x8000_0000 && y >= 2 {
        assert(x / y <= 0x4000_0000) by (nonlinear_arith)
            requires
                x == 0x8000_0000,
                y >= 2,
        ;
    }
    if y == 1 {
        assert(x / y == x) by (nonlinear_arith)
            requires
                y == 1,
        ;
    }
    let q = trunc_div(a as int, b as int);
    let r = trunc_rem(a as int, b as int);
    assert(q * b + r == a) by (nonlinear_arith)
        requires
            x == abs(a as int),
            y == abs(b as int),
            x == (x / y) * y + x % y,
            q == (if (a < 0) == (b < 0) { x / y } else { -(x / y) }),
            r == (if a < 0 { -(x % y) } else { x % y }),
    ;
}

proof fn lemma_digit_char(d: nat)
    requires
        d < 10,
    ensures
        is_ascii_digit(digit_char(d)),
        (digit_char(d) as nat) - ('0' as nat) == d,
{
}

proof fn lemma_decimal(n: nat)
    ensures
        decimal(n).len() > 0,
        all_digits(decimal(n)),
        digits_value(decimal(n)) == n,
    decreases n,
{
    lemma_digit_char(n % 10);
    if n < 10 {
        assert(n % 10 == n);
        assert(decimal(n).drop_last() =~= Seq::<char>::empty());
        assert(digits_value(Seq::<char>::empty()) == 0);
        assert(digits_value(decimal(n)) == digits_value(decimal(n).drop_last()) * 10 + n);
    } else {
        lemma_decimal(n / 10);
        let d = decimal(n / 10);
        let s = d.push(digit_char(n % 10));
        assert(s.drop_last() =~= d);
        assert forall|i: int| 0 <= i < s.len() implies is_ascii_digit(#[trigger] s[i]) by {
            if i < d.len() {
                assert(s[i] == d[i]);
            }
        }
        assert(n == (n / 10) * 10 + n % 10) by (nonlinear_arith);
        assert(decimal(n) == s);
        assert(digits_value(s) == digits_value(d) * 10 + n % 10);
    }
}

/// An integer printed reads back as the same integer: `str::parse::<i32>`
/// (which the lexer uses for number literals, after a `-` for negatives) gives
/// back the value from the text that printing shows.
pub proof fn law_display_parses_back(n: i32)
    ensures
        parse_i32_spec(display(ValueV::Int(n))) == Some(n),
{
    reveal_strlit("-");
    if n < 0 {
        let m = (-n) as nat;
        lemma_decimal(m);
        let s = "-"@ + decimal(m);
        assert(s.drop_first() =~= decimal(m));
        assert(s[0] == '-');
        assert(all_digits(s.drop_first()));
        assert(-(digits_value(s.drop_first()) as int) == n);
        assert(display(ValueV::Int(n)) == s);
        assert(parse_i32_spec(s) == Some(n));
    } else {
        lemma_decimal(n as nat);
        assert(is_ascii_digit(decimal(n as nat)[0]));
        assert(display(ValueV::Int(n)) == decimal(n as nat));
        assert(parse_i32_spec(decimal(n as nat)) == Some(n));
    }
}

} // verus!
