use vstd::prelude::*;
use std::cmp::Ordering;
use crate::number::{KodyNumber, difference_spec, negation_spec, product_spec, quotient_spec, sum_spec};
use crate::objects::{KodyObject, KodyValue, NativeFunction, RuntimeError};

verus! {

/// The values that a list of arguments holds.
pub open spec fn values_of(args: Seq<KodyObject>) -> Seq<KodyValue> {
    args.map_values(|o: KodyObject| *o.value)
}

/// What a built-in operation gives for its arguments (`print` gives the
/// empty value; what it shows is handled by the evaluator).
pub open spec fn native_spec(f: NativeFunction, args: Seq<KodyValue>) -> Result<KodyValue, RuntimeError> {
    match f {
        NativeFunction::Print => Ok(KodyValue::Empty),
        NativeFunction::Negate => if args.len() != 1 {
            Err(RuntimeError::WrongArgumentCount)
        } else {
            match args[0] {
                KodyValue::Number(a) => Ok(KodyValue::Number(negation_spec(a))),
                _ => Err(RuntimeError::WrongArgumentType),
            }
        },
        NativeFunction::Not => if args.len() != 1 {
            Err(RuntimeError::WrongArgumentCount)
        } else {
            match args[0] {
                KodyValue::Bool(a) => Ok(KodyValue::Bool(!a)),
                _ => Err(RuntimeError::WrongArgumentType),
            }
        },
        NativeFunction::And | NativeFunction::Or => if args.len() != 2 {
            Err(RuntimeError::WrongArgumentCount)
        } else {
            match (args[0], args[1]) {
                (KodyValue::Bool(a), KodyValue::Bool(b)) => Ok(
                    KodyValue::Bool(if f == NativeFunction::And { a && b } else { a || b }),
                ),
                _ => Err(RuntimeError::WrongArgumentType),
            }
        },
        _ => if args.len() != 2 {
            Err(RuntimeError::WrongArgumentCount)
        } else {
            match (args[0], args[1]) {
                (KodyValue::Number(a), KodyValue::Number(b)) => match f {
                    NativeFunction::Add => Ok(KodyValue::Number(sum_spec(a, b))),
                    NativeFunction::Subtract => Ok(KodyValue::Number(difference_spec(a, b))),
                    NativeFunction::Multiply => Ok(KodyValue::Number(product_spec(a, b))),
                    NativeFunction::Divide => if b.is_zero() {
                        Err(RuntimeError::DivisionByZero)
                    } else {
                        Ok(KodyValue::Number(quotient_spec(a, b)))
                    },
                    NativeFunction::Equal => Ok(KodyValue::Bool(a.same_value(b))),
                    NativeFunction::NotEqual => Ok(KodyValue::Bool(!a.same_value(b))),
                    NativeFunction::LessThan => Ok(KodyValue::Bool(a.less_than(b))),
                    NativeFunction::LessThanOrEqual => Ok(
                        KodyValue::Bool(a.less_than(b) || a.same_value(b)),
                    ),
                    NativeFunction::GreaterThan => Ok(KodyValue::Bool(b.less_than(a))),
                    _ => Ok(KodyValue::Bool(b.less_than(a) || a.same_value(b))),
                },
                _ => Err(RuntimeError::WrongArgumentType),
            }
        },
    }
}

/// The result `r` of a call is what `native_spec` gives.
pub open spec fn agrees(r: Result<KodyObject, RuntimeError>, s: Result<KodyValue, RuntimeError>) -> bool {
    match r {
        Ok(o) => s == Ok::<KodyValue, RuntimeError>(*o.value),
        Err(e) => s == Err::<KodyValue, RuntimeError>(e),
    }
}

fn bool_object(b: bool) -> (r: KodyObject)
    ensures
        *r.value == KodyValue::Bool(b),
{
    KodyObject::from(KodyValue::Bool(b))
}

pub fn __not(args: Vec<KodyObject>) -> (r: Result<KodyObject, RuntimeError>)
    ensures
        agrees(r, native_spec(NativeFunction::Not, values_of(args@))),
{
    if args.len() != 1 {
        return Err(RuntimeError::WrongArgumentCount);
    }
    match &*args[0].value {
        KodyValue::Bool(a) => Ok(bool_object(!*a)),
        _ => Err(RuntimeError::WrongArgumentType),
    }
}

/// The two booleans of a two-argument call.
fn two_bools(args: &Vec<KodyObject>) -> (r: Result<(bool, bool), RuntimeError>)
    ensures
        args@.len() != 2 ==> r == Err::<(bool, bool), RuntimeError>(RuntimeError::WrongArgumentCount),
        args@.len() == 2 ==> match (*args@[0].value, *args@[1].value) {
            (KodyValue::Bool(a), KodyValue::Bool(b)) => r == Ok::<(bool, bool), RuntimeError>((a, b)),
            _ => r == Err::<(bool, bool), RuntimeError>(RuntimeError::WrongArgumentType),
        },
{
    if args.len() != 2 {
        return Err(RuntimeError::WrongArgumentCount);
    }
    match (&*args[0].value, &*args[1].value) {
        (KodyValue::Bool(a), KodyValue::Bool(b)) => Ok((*a, *b)),
        _ => Err(RuntimeError::WrongArgumentType),
    }
}

pub fn __and(args: Vec<KodyObject>) -> (r: Result<KodyObject, RuntimeError>)
    ensures
        agrees(r, native_spec(NativeFunction::And, values_of(args@))),
{
    match two_bools(&args) {
        Ok((a, b)) => Ok(bool_object(a && b)),
        Err(e) => Err(e),
    }
}

pub fn __or(args: Vec<KodyObject>) -> (r: Result<KodyObject, RuntimeError>)
    ensures
        agrees(r, native_spec(NativeFunction::Or, values_of(args@))),
{
    match two_bools(&args) {
        Ok((a, b)) => Ok(bool_object(a || b)),
        Err(e) => Err(e),
    }
}


/// The two numbers of a two-argument call.
fn two_numbers(args: &Vec<KodyObject>) -> (r: Result<(KodyNumber, KodyNumber), RuntimeError>)
    ensures
        args@.len() != 2 ==> r == Err::<(KodyNumber, KodyNumber), RuntimeError>(
            RuntimeError::WrongArgumentCount,
        ),
        args@.len() == 2 ==> match (*args@[0].value, *args@[1].value) {
            (KodyValue::Number(a), KodyValue::Number(b)) => r == Ok::<
                (KodyNumber, KodyNumber),
                RuntimeError,
            >((a, b)),
            _ => r == Err::<(KodyNumber, KodyNumber), RuntimeError>(
                RuntimeError::WrongArgumentType,
            ),
        },
{
    if args.len() != 2 {
        return Err(RuntimeError::WrongArgumentCount);
    }
    match (&*args[0].value, &*args[1].value) {
        (KodyValue::Number(a), KodyValue::Number(b)) => Ok((*a, *b)),
        _ => Err(RuntimeError::WrongArgumentType),
    }
}

fn number_object(n: KodyNumber) -> (r: KodyObject)
    ensures
        *r.value == KodyValue::Number(n),
{
    KodyObject::from(KodyValue::Number(n))
}

/// Applies an arithmetic operation (`Add`, `Subtract`, `Multiply` or
/// `Divide`) to two numbers.
pub fn modify_numbers(args: Vec<KodyObject>, operation: NativeFunction) -> (r: Result<KodyObject, RuntimeError>)
    requires
        operation == NativeFunction::Add || operation == NativeFunction::Subtract || operation
            == NativeFunction::Multiply || operation == NativeFunction::Divide,
    ensures
        agrees(r, native_spec(operation, values_of(args@))),
{
    let (a, b) = match two_numbers(&args) {
        Ok(pair) => pair,
        Err(e) => {
            return Err(e);
        },
    };
    match operation {
        NativeFunction::Add => Ok(number_object(a.add(&b))),
        NativeFunction::Subtract => Ok(number_object(a.sub(&b))),
        NativeFunction::Multiply => Ok(number_object(a.mul(&b))),
        _ => {
            if b.numerator() == 0 {
                return Err(RuntimeError::DivisionByZero);
            }
            Ok(number_object(a.div(&b)))
        },
    }
}

pub fn __multiply(args: Vec<KodyObject>) -> (r: Result<KodyObject, RuntimeError>)
    ensures
        agrees(r, native_spec(NativeFunction::Multiply, values_of(args@))),
{
    modify_numbers(args, NativeFunction::Multiply)
}

pub fn __divide(args: Vec<KodyObject>) -> (r: Result<KodyObject, RuntimeError>)
    ensures
        agrees(r, native_spec(NativeFunction::Divide, values_of(args@))),
{
    modify_numbers(args, NativeFunction::Divide)
}

pub fn __add(args: Vec<KodyObject>) -> (r: Result<KodyObject, RuntimeError>)
    ensures
        agrees(r, native_spec(NativeFunction::Add, values_of(args@))),
{
    modify_numbers(args, NativeFunction::Add)
}

pub fn __subtract(args: Vec<KodyObject>) -> (r: Result<KodyObject, RuntimeError>)
    ensures
        agrees(r, native_spec(NativeFunction::Subtract, values_of(args@))),
{
    modify_numbers(args, NativeFunction::Subtract)
}

pub fn __negate(args: Vec<KodyObject>) -> (r: Result<KodyObject, RuntimeError>)
    ensures
        agrees(r, native_spec(NativeFunction::Negate, values_of(args@))),
{
    if args.len() != 1 {
        return Err(RuntimeError::WrongArgumentCount);
    }
    match &*args[0].value {
        KodyValue::Number(a) => Ok(number_object(a.neg())),
        _ => Err(RuntimeError::WrongArgumentType),
    }
}

/// The three-way order of two numbers.
pub fn compare_numbers(args: Vec<KodyObject>) -> (r: Result<Ordering, RuntimeError>)
    ensures
        args@.len() != 2 ==> r == Err::<Ordering, RuntimeError>(RuntimeError::WrongArgumentCount),
        args@.len() == 2 ==> match (*args@[0].value, *args@[1].value) {
            (KodyValue::Number(a), KodyValue::Number(b)) => r matches Ok(o) && (o
                == Ordering::Less <==> a.less_than(b)) && (o == Ordering::Equal <==> a.same_value(
                b,
            )) && (o == Ordering::Greater <==> b.less_than(a)),
            _ => r == Err::<Ordering, RuntimeError>(RuntimeError::WrongArgumentType),
        },
{
    match two_numbers(&args) {
        Ok((a, b)) => Ok(a.cmp(&b)),
        Err(e) => Err(e),
    }
}

/// Maps the order of two numbers to the result of a comparison operation.
fn comparison(args: Vec<KodyObject>, operation: NativeFunction) -> (r: Result<KodyObject, RuntimeError>)
    requires
        operation == NativeFunction::Equal || operation == NativeFunction::NotEqual || operation
            == NativeFunction::LessThan || operation == NativeFunction::LessThanOrEqual
            || operation == NativeFunction::GreaterThan || operation
            == NativeFunction::GreaterThanOrEqual,
    ensures
        agrees(r, native_spec(operation, values_of(args@))),
{
    let ghost vals = values_of(args@);
    proof {
        if args@.len() == 2 {
            assert(vals[0] == *args@[0].value);
            assert(vals[1] == *args@[1].value);
        }
    }
    let order = match compare_numbers(args) {
        Ok(o) => o,
        Err(e) => {
            return Err(e);
        },
    };
    let is_less = match order {
        Ordering::Less => true,
        _ => false,
    };
    let is_equal = match order {
        Ordering::Equal => true,
        _ => false,
    };
    let is_greater = match order {
        Ordering::Greater => true,
        _ => false,
    };
    let b = match operation {
        NativeFunction::Equal => is_equal,
        NativeFunction::NotEqual => !is_equal,
        NativeFunction::LessThan => is_less,
        NativeFunction::LessThanOrEqual => is_less || is_equal,
        NativeFunction::GreaterThan => is_greater,
        _ => is_greater || is_equal,
    };
    Ok(bool_object(b))
}

pub fn __less_than(args: Vec<KodyObject>) -> (r: Result<KodyObject, RuntimeError>)
    ensures
        agrees(r, native_spec(NativeFunction::LessThan, values_of(args@))),
{
    comparison(args, NativeFunction::LessThan)
}

pub fn __greater_than(args: Vec<KodyObject>) -> (r: Result<KodyObject, RuntimeError>)
    ensures
        agrees(r, native_spec(NativeFunction::GreaterThan, values_of(args@))),
{
    comparison(args, NativeFunction::GreaterThan)
}

pub fn __less_or_equal(args: Vec<KodyObject>) -> (r: Result<KodyObject, RuntimeError>)
    ensures
        agrees(r, native_spec(NativeFunction::LessThanOrEqual, values_of(args@))),
{
    comparison(args, NativeFunction::LessThanOrEqual)
}

pub fn __greater_or_equal(args: Vec<KodyObject>) -> (r: Result<KodyObject, RuntimeError>)
    ensures
        agrees(r, native_spec(NativeFunction::GreaterThanOrEqual, values_of(args@))),
{
    comparison(args, NativeFunction::GreaterThanOrEqual)
}

pub fn __equal(args: Vec<KodyObject>) -> (r: Result<KodyObject, RuntimeError>)
    ensures
        agrees(r, native_spec(NativeFunction::Equal, values_of(args@))),
{
    comparison(args, NativeFunction::Equal)
}

pub fn __not_equal(args: Vec<KodyObject>) -> (r: Result<KodyObject, RuntimeError>)
    ensures
        agrees(r, native_spec(NativeFunction::NotEqual, values_of(args@))),
{
    comparison(args, NativeFunction::NotEqual)
}

/// Runs a built-in operation other than `print` on its arguments.
pub fn call_native(f: NativeFunction, args: Vec<KodyObject>) -> (r: Result<KodyObject, RuntimeError>)
    requires
        f != NativeFunction::Print,
    ensures
        agrees(r, native_spec(f, values_of(args@))),
{
    match f {
        NativeFunction::Add | NativeFunction::Subtract | NativeFunction::Multiply
        | NativeFunction::Divide => modify_numbers(args, f),
        NativeFunction::Negate => __negate(args),
        NativeFunction::Not => __not(args),
        NativeFunction::And => __and(args),
        NativeFunction::Or => __or(args),
        _ => comparison(args, f),
    }
}

} // verus!
