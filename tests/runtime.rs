use kody::natives::{
    __add, __and, __divide, __equal, __greater_or_equal, __greater_than, __less_or_equal, __less_than,
    __multiply, __negate, __not, __not_equal, __or, __subtract, compare_numbers,
};
use kody::number::KodyNumber;
use kody::objects::{display_text, KodyObject, KodyValue, RuntimeError};
use kody::runtime::{execute, VariableStack};
use kody::syntax_tree::parse_tokens;
use kody::tokenizer::tokenize;
use std::cmp::Ordering;

fn run(source: &str) -> (Result<KodyObject, RuntimeError>, Vec<String>) {
    let tokens = tokenize(source).unwrap();
    let tree = parse_tokens(&tokens).unwrap();
    let mut output = Vec::new();
    let result = execute(&tree, &mut output);
    let lines = output
        .iter()
        .map(|line| line.iter().map(|v| display_text(v).unwrap()).collect::<Vec<String>>().concat())
        .collect();
    (result, lines)
}

fn number(x: i64) -> KodyObject {
    KodyObject::from(KodyValue::Number(KodyNumber::from_int(x)))
}

fn boolean(b: bool) -> KodyObject {
    KodyObject::from(KodyValue::Bool(b))
}

#[test]
fn function_call_prints_sum() {
    let (result, lines) = run("func add(x, y) { return x + y }\nprint(add(2, 3))");
    assert!(result.is_ok());
    assert_eq!(lines, vec![String::from("5")]);
}

#[test]
fn countdown_loop_terminates() {
    let (result, lines) = run("x = 3\nwhile x > 0 {\n x = x - 1\n}\nprint(x)");
    assert!(result.is_ok());
    assert_eq!(lines, vec![String::from("0")]);
}

#[test]
fn wrong_arity_is_an_error() {
    let (result, lines) = run("func add(x, y) { return x + y }\nprint(add(1))");
    assert_eq!(result, Err(RuntimeError::ArityMismatch));
    assert!(lines.is_empty());
}

#[test]
fn assignment_in_loop_updates_outer_variable() {
    let (result, lines) = run("total = 0\ni = 0\nwhile i < 4 {\n total += i\n i += 1\n}\nprint(total, \" \", i)");
    assert!(result.is_ok());
    assert_eq!(lines, vec![String::from("6 4")]);
}

#[test]
fn block_local_variable_disappears() {
    let (result, _) = run("if true { y = 1 }\nprint(y)");
    assert_eq!(result, Err(RuntimeError::UnknownVariable(String::from("y"))));
}

#[test]
fn functions_see_globals_and_parameters_only() {
    let (result, _) = run("func f() { return z }\nz = 1\nprint(f())");
    assert_eq!(result, Err(RuntimeError::UnknownVariable(String::from("z"))));
}

#[test]
fn program_result_is_returned_value() {
    let (result, _) = run("return 2 * 21");
    assert_eq!(result, Ok(number(42)));
    let (result, _) = run("x = 1");
    assert_eq!(result, Ok(KodyObject::new()));
}

#[test]
fn return_stops_loop_and_function() {
    let (result, lines) = run("func first() { i = 0 while true { i += 1 if i == 3 { return i } } }\nprint(first())");
    assert!(result.is_ok());
    assert_eq!(lines, vec![String::from("3")]);
}

#[test]
fn runtime_error_kinds() {
    assert_eq!(run("if 1 { 2 }").0, Err(RuntimeError::NonBooleanCondition));
    assert_eq!(run("x = 1\nx(2)").0, Err(RuntimeError::NotCallable));
    assert_eq!(run("print(1 / 0)").0, Err(RuntimeError::DivisionByZero));
    assert_eq!(run("print(\"a\" + 1)").0, Err(RuntimeError::WrongArgumentType));
    assert_eq!(run("print(__add(1))").0, Err(RuntimeError::WrongArgumentCount));
    assert_eq!(run("func f() { return f() }\nf()").0, Err(RuntimeError::ResourceExhausted));
}

#[test]
fn print_shows_each_kind() {
    let (_, lines) = run("print(\"a\", true, false, -7, 2 * 3)");
    assert_eq!(lines, vec![String::from("atruefalse-76")]);
}

#[test]
fn variable_stack_scoping() {
    let mut stack = VariableStack::new(Vec::new());
    let x = String::from("x");
    let y = String::from("y");
    stack.set(&x, KodyValue::Bool(false));
    stack.open_closure();
    stack.set(&x, KodyValue::Bool(true));
    stack.set(&y, KodyValue::Bool(true));
    assert_eq!(stack.get(&y), Ok(KodyValue::Bool(true)));
    stack.close_closure();
    assert_eq!(stack.get(&x), Ok(KodyValue::Bool(true)));
    assert_eq!(stack.get(&y), Err(RuntimeError::UnknownVariable(String::from("y"))));
    assert!(matches!(stack.get(&String::from("print")), Ok(KodyValue::NativeFunction(_))));
}

#[test]
fn arithmetic_natives() {
    assert_eq!(__add(vec![number(2), number(3)]), Ok(number(5)));
    assert_eq!(__subtract(vec![number(2), number(3)]), Ok(number(-1)));
    assert_eq!(__multiply(vec![number(-4), number(3)]), Ok(number(-12)));
    assert_eq!(__divide(vec![number(12), number(4)]), Ok(number(3)));
    assert_eq!(__negate(vec![number(4)]), Ok(number(-4)));
    assert_eq!(__divide(vec![number(1), number(0)]), Err(RuntimeError::DivisionByZero));
    assert_eq!(__add(vec![number(1)]), Err(RuntimeError::WrongArgumentCount));
    assert_eq!(__add(vec![number(1), boolean(true)]), Err(RuntimeError::WrongArgumentType));
    assert_eq!(__negate(vec![boolean(true)]), Err(RuntimeError::WrongArgumentType));
}

#[test]
fn comparison_natives() {
    assert_eq!(compare_numbers(vec![number(1), number(2)]), Ok(Ordering::Less));
    assert_eq!(compare_numbers(vec![number(-1), number(-2)]), Ok(Ordering::Greater));
    assert_eq!(__less_than(vec![number(1), number(2)]), Ok(boolean(true)));
    assert_eq!(__greater_than(vec![number(1), number(2)]), Ok(boolean(false)));
    assert_eq!(__less_or_equal(vec![number(2), number(2)]), Ok(boolean(true)));
    assert_eq!(__greater_or_equal(vec![number(1), number(2)]), Ok(boolean(false)));
    assert_eq!(__equal(vec![number(2), number(2)]), Ok(boolean(true)));
    assert_eq!(__not_equal(vec![number(2), number(2)]), Ok(boolean(false)));
    assert_eq!(__equal(vec![boolean(true), number(2)]), Err(RuntimeError::WrongArgumentType));
}

#[test]
fn logic_natives() {
    assert_eq!(__not(vec![boolean(true)]), Ok(boolean(false)));
    assert_eq!(__and(vec![boolean(true), boolean(false)]), Ok(boolean(false)));
    assert_eq!(__or(vec![boolean(true), boolean(false)]), Ok(boolean(true)));
    assert_eq!(__or(vec![boolean(true)]), Err(RuntimeError::WrongArgumentCount));
    assert_eq!(__and(vec![boolean(true), number(1)]), Err(RuntimeError::WrongArgumentType));
}

#[test]
fn member_access_is_not_evaluated() {
    assert_eq!(run("x = 1\nprint(x.y)").0, Err(RuntimeError::UnknownMember(String::from("y"))));
}

#[test]
fn later_function_definition_wins() {
    let (_, lines) = run("func f() { return 1 }\nfunc f() { return 2 }\nprint(f())");
    assert_eq!(lines, vec![String::from("2")]);
}

#[test]
fn fractions_compare_exactly() {
    let (_, lines) = run("print((1 / 3) * 3 == 1, 0.1 + 0.2 == 0.3, 2.5 * 4, 8 / 4 / 2)");
    assert_eq!(lines, vec![String::from("truetrue104")]);
}
