use vstd::prelude::*;
use crate::number::KodyNumber;
use crate::text::push_char;

verus! {

/// The built-in operations, reached through reserved names.
#[derive(Clone, Copy, Debug, PartialEq, Eq)]
pub enum NativeFunction {
    Print,
    Equal,
    NotEqual,
    LessThan,
    LessThanOrEqual,
    GreaterThan,
    GreaterThanOrEqual,
    Add,
    Subtract,
    Multiply,
    Divide,
    Negate,
    Not,
    And,
    Or,
}

/// Why evaluation stopped.
#[derive(Clone, Debug, PartialEq)]
pub enum RuntimeError {
    UnknownVariable(String),
    WrongArgumentCount,
    WrongArgumentType,
    DivisionByZero,
    NonBooleanCondition,
    NotCallable,
    ArityMismatch,
    UnknownFunction,
    UnknownMember(String),
    ResourceExhausted,
}

/// A runtime value. A user function is referred to by its index in the
/// program's function table.
#[derive(Clone, Debug, PartialEq)]
pub enum KodyValue {
    Bool(bool),
    Number(KodyNumber),
    StringLiteral(String),
    Function(usize),
    NativeFunction(NativeFunction),
    Empty,
}

/// A value as handed between the parser, the evaluator and the natives.
#[derive(Clone, Debug, PartialEq)]
pub struct KodyObject {
    pub value: Box<KodyValue>,
}

impl KodyValue {
    /// A copy of this value.
    pub fn duplicate(&self) -> (r: KodyValue)
        ensures
            r == *self,
    {
        match self {
            KodyValue::Bool(b) => KodyValue::Bool(*b),
            KodyValue::Number(n) => KodyValue::Number(*n),
            KodyValue::StringLiteral(s) => KodyValue::StringLiteral(s.clone()),
            KodyValue::Function(i) => KodyValue::Function(*i),
            KodyValue::NativeFunction(f) => KodyValue::NativeFunction(*f),
            KodyValue::Empty => KodyValue::Empty,
        }
    }
}

impl KodyObject {
    /// The empty value.
    pub fn new() -> (r: KodyObject)
        ensures
            *r.value == KodyValue::Empty,
    {
        KodyObject { value: Box::new(KodyValue::Empty) }
    }

    /// An object holding `value`.
    pub fn from(value: KodyValue) -> (r: KodyObject)
        ensures
            *r.value == value,
    {
        KodyObject { value: Box::new(value) }
    }

    /// A copy of this object.
    pub fn duplicate(&self) -> (r: KodyObject)
        ensures
            *r.value == *self.value,
    {
        KodyObject { value: Box::new(self.value.duplicate()) }
    }
}

pub open spec fn digit_char(d: nat) -> char {
    ((d % 10) + '0' as nat) as char
}

/// The decimal digits of `n`, most significant first.
pub open spec fn decimal_digits(n: nat) -> Seq<char>
    decreases n,
{
    if n < 10 {
        seq![digit_char(n)]
    } else {
        decimal_digits(n / 10).push(digit_char(n % 10))
    }
}

/// Appends the decimal digits of `n` to `out`.
pub fn push_decimal(n: u128, out: &mut String)
    ensures
        final(out)@ == old(out)@ + decimal_digits(n as nat),
    decreases n,
{
    if n >= 10 {
        push_decimal(n / 10, out);
    }
    let d = (n % 10) as u8;
    push_char(out, (d + 48u8) as char);
    proof {
        assert(((d + 48u8) as char) == digit_char(n as nat)) by {
            assert((n as nat % 10) % 10 == n as nat % 10);
        }
    }
    assert(final(out)@ =~= old(out)@ + decimal_digits(n as nat));
}

/// How `print` shows a value, where that is text of the value alone: an
/// integer in decimal with its sign, a boolean as `true` or `false`, a string
/// as itself. Fractions, functions and the empty value give `None`.
pub open spec fn display_spec(v: KodyValue) -> Option<Seq<char>> {
    match v {
        KodyValue::Bool(true) => Some(seq!['t', 'r', 'u', 'e']),
        KodyValue::Bool(false) => Some(seq!['f', 'a', 'l', 's', 'e']),
        KodyValue::StringLiteral(s) => Some(s@),
        KodyValue::Number(n) => if n.den() == 1 {
            if n.negative() {
                Some(seq!['-'] + decimal_digits(n.num()))
            } else {
                Some(decimal_digits(n.num()))
            }
        } else {
            None
        },
        _ => None,
    }
}

/// The text that `print` shows for `value`, where `display_spec` gives one.
pub fn display_text(value: &KodyValue) -> (r: Option<String>)
    ensures
        r matches Some(s) ==> display_spec(*value) == Some(s@),
        r is None ==> display_spec(*value) is None,
{
    match value {
        KodyValue::Bool(b) => {
            let mut s = String::new();
            if *b {
                push_char(&mut s, 't');
                push_char(&mut s, 'r');
                push_char(&mut s, 'u');
                push_char(&mut s, 'e');
                assert(s@ =~= seq!['t', 'r', 'u', 'e']);
            } else {
                push_char(&mut s, 'f');
                push_char(&mut s, 'a');
                push_char(&mut s, 'l');
                push_char(&mut s, 's');
                push_char(&mut s, 'e');
                assert(s@ =~= seq!['f', 'a', 'l', 's', 'e']);
            }
            Some(s)
        },
        KodyValue::StringLiteral(text) => Some(text.clone()),
        KodyValue::Number(n) => {
            if n.denominator() != 1 {
                return None;
            }
            let mut s = String::new();
            if n.is_negative() {
                push_char(&mut s, '-');
            }
            push_decimal(n.numerator(), &mut s);
            assert(s@ =~= if n.negative() { seq!['-'] + decimal_digits(n.num()) } else { decimal_digits(n.num()) });
            Some(s)
        },
        _ => None,
    }
}

} // verus!
