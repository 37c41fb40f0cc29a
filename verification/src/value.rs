use vstd::prelude::*;

verus! {

/// A node's current value: a small tagged union of the four primitive kinds.
///
/// The `Float` variant carries the IEEE-754 bit pattern of the number as a
/// plain integer, so a value of every kind is ordinary data and two values
/// compare field by field. A value is immutable once constructed; propagation
/// clones it into each dependent node, never mutates it in place.
#[derive(Debug)]
pub enum Value {
    Bool(bool),
    Integer(i64),
    Float(u64),
    Str(String),
}

/// The decimal digit character for one value below ten.
pub open spec fn dec_digit(d: nat) -> char {
    if d == 0 {
        '0'
    } else if d == 1 {
        '1'
    } else if d == 2 {
        '2'
    } else if d == 3 {
        '3'
    } else if d == 4 {
        '4'
    } else if d == 5 {
        '5'
    } else if d == 6 {
        '6'
    } else if d == 7 {
        '7'
    } else if d == 8 {
        '8'
    } else {
        '9'
    }
}

/// The decimal digits of a number, most significant first.
pub open spec fn dec_u64(n: nat) -> Seq<char>
    decreases n,
{
    if n < 10 {
        seq![dec_digit(n)]
    } else {
        dec_u64(n / 10).push(dec_digit(n % 10))
    }
}

/// The decimal digits of a signed number, `-` first when negative.
pub open spec fn dec_i64(i: int) -> Seq<char> {
    if i < 0 {
        seq!['-'] + dec_u64((-i) as nat)
    } else {
        dec_u64(i as nat)
    }
}

/// The display form of a value, for logging: the characters of a string,
/// `true` or `false`, the decimal digits of an integer, and for a float the
/// decimal digits of its stored bit pattern after `float:` — rendering the
/// number itself would take floating-point arithmetic, which stays outside
/// the verified core.
pub open spec fn display_of(v: Value) -> Seq<char> {
    match v {
        Value::Bool(b) => if b {
            "true"@
        } else {
            "false"@
        },
        Value::Integer(i) => dec_i64(i as int),
        Value::Float(bits) => "float:"@ + dec_u64(bits as nat),
        Value::Str(s) => s@,
    }
}

/// Relies on std's formatting of `i64`: the decimal digits of the value,
/// with a leading minus sign when negative.
#[verifier::external_body]
fn i64_to_string(i: i64) -> (r: String)
    ensures
        r@ == dec_i64(i as int),
{
    i.to_string()
}

/// Relies on std's formatting of `u64`: the decimal digits of the value.
#[verifier::external_body]
fn u64_to_string(n: u64) -> (r: String)
    ensures
        r@ == dec_u64(n as nat),
{
    n.to_string()
}

/// What `==` means on two values: exact comparison of tag and payload,
/// with strings compared by their characters.
pub open spec fn value_eq(a: &Value, b: &Value) -> bool {
    match (a, b) {
        (Value::Bool(x), Value::Bool(y)) => x == y,
        (Value::Integer(x), Value::Integer(y)) => x == y,
        (Value::Float(x), Value::Float(y)) => x == y,
        (Value::Str(x), Value::Str(y)) => x@ == y@,
        _ => false,
    }
}

impl Value {
    /// Wrap a borrowed string as an owned string value.
    pub fn new_str(s: &str) -> (v: Value)
        ensures
            v matches Value::Str(t) && t@ == s@,
    {
        Value::Str(s.to_owned())
    }

    /// Wrap an integer.
    pub fn from_integer(i: i64) -> (v: Value)
        ensures
            v == Value::Integer(i),
    {
        Value::Integer(i)
    }

    /// Wrap a boolean.
    pub fn from_boolean(b: bool) -> (v: Value)
        ensures
            v == Value::Bool(b),
    {
        Value::Bool(b)
    }

    /// Wrap a floating-point number given as its IEEE-754 bit pattern.
    pub fn from_float_bits(bits: u64) -> (v: Value)
        ensures
            v == Value::Float(bits),
    {
        Value::Float(bits)
    }

    /// Render to the display form for logging: exactly `display_of`.
    pub fn to_display_string(&self) -> (r: String)
        ensures
            r@ == display_of(*self),
    {
        match self {
            Value::Bool(b) => if *b {
                "true".to_owned()
            } else {
                "false".to_owned()
            },
            Value::Integer(i) => i64_to_string(*i),
            Value::Float(bits) => {
                let mut r = "float:".to_owned();
                let digits = u64_to_string(*bits);
                r.append(digits.as_str());
                r
            },
            Value::Str(t) => t.clone(),
        }
    }
}

impl Clone for Value {
    /// A clone is equal to the original, including the characters of a
    /// string payload.
    fn clone(&self) -> (res: Value)
        ensures
            res == *self,
    {
        match self {
            Value::Bool(b) => Value::Bool(*b),
            Value::Integer(i) => Value::Integer(*i),
            Value::Float(x) => Value::Float(*x),
            Value::Str(s) => Value::Str(s.clone()),
        }
    }
}

impl PartialEq for Value {
    fn eq(&self, other: &Value) -> bool {
        match (self, other) {
            (Value::Bool(x), Value::Bool(y)) => *x == *y,
            (Value::Integer(x), Value::Integer(y)) => *x == *y,
            (Value::Float(x), Value::Float(y)) => *x == *y,
            (Value::Str(x), Value::Str(y)) => x.eq(y),
            _ => false,
        }
    }
}

impl vstd::std_specs::cmp::PartialEqSpecImpl for Value {
    open spec fn obeys_eq_spec() -> bool {
        true
    }

    open spec fn eq_spec(&self, other: &Value) -> bool {
        value_eq(self, other)
    }
}

} // verus!
