use kody::expression_parser::parse_expression_tokens;
use kody::number::KodyNumber;
use kody::objects::{KodyObject, KodyValue};
use kody::syntax_tree::{parse_tokens, KodyNode, ParseError};
use kody::tokenizer::{tokenize, Token};

fn var(name: &str) -> KodyNode {
    KodyNode::GetVariable { name: String::from(name) }
}

fn num(x: i64) -> KodyNode {
    KodyNode::GetConstant { value: KodyObject::from(KodyValue::Number(KodyNumber::from_int(x))) }
}

fn boolean(b: bool) -> KodyNode {
    KodyNode::GetConstant { value: KodyObject::from(KodyValue::Bool(b)) }
}

fn call(name: &str, arguments: Vec<KodyNode>) -> KodyNode {
    KodyNode::CallFunction { function: Box::new(var(name)), arguments }
}

fn set(name: &str, value: KodyNode) -> KodyNode {
    KodyNode::SetVariable { name: String::from(name), value: Box::new(value) }
}

fn number_token(text: &str) -> Token {
    Token::Number(String::from(text))
}

fn identifier(text: &str) -> Token {
    Token::Identifier(String::from(text))
}

fn check_negation_and_subtraction() {
    assert_eq!(
        parse_expression_tokens(&[
            identifier("x"),
            Token::Assign,
            number_token("3"),
            Token::Divide,
            Token::Subtract,
            number_token("5")
        ]),
        Ok(set("x", call("__divide", vec![num(3), call("__negate", vec![num(5)])])))
    );
    assert_eq!(
        parse_expression_tokens(&[number_token("5"), Token::Subtract, number_token("3")]),
        Ok(call("__subtract", vec![num(5), num(3)]))
    );
    assert!(parse_expression_tokens(&[
        number_token("3"),
        Token::Add,
        Token::Subtract,
        number_token("2")
    ])
    .is_err());
}

fn check_simple_expressions() {
    assert_eq!(
        parse_expression_tokens(&[
            identifier("x"),
            Token::Assign,
            identifier("y"),
            Token::Add,
            number_token("1")
        ]),
        Ok(set("x", call("__add", vec![var("y"), num(1)])))
    );
    assert_eq!(
        parse_expression_tokens(&[
            identifier("print"),
            Token::OpenParentheses,
            identifier("y"),
            Token::Separator,
            number_token("1"),
            Token::Add,
            number_token("2"),
            Token::CloseParentheses,
        ]),
        Ok(call("print", vec![var("y"), call("__add", vec![num(1), num(2)])]))
    );
}

#[test]
fn syntax_tree_negation_and_subtraction() {
    check_negation_and_subtraction();
}

#[test]
fn syntax_tree_simple_expressions() {
    check_simple_expressions();
}

#[test]
fn mod_negation_and_subtraction() {
    check_negation_and_subtraction();
}

#[test]
fn mod_simple_expressions() {
    check_simple_expressions();
}

#[test]
fn parentheses() {
    assert_eq!(
        parse_expression_tokens(&[
            identifier("a"),
            Token::Multiply,
            Token::OpenParentheses,
            number_token("2"),
            Token::Subtract,
            identifier("b"),
            Token::CloseParentheses
        ]),
        Ok(call("__multiply", vec![var("a"), call("__subtract", vec![num(2), var("b")])]))
    );
}

#[test]
fn if_expression() {
    assert_eq!(
        parse_expression_tokens(&[
            identifier("a"),
            Token::Add,
            Token::If,
            Token::True,
            Token::OpenCurlyBrackets,
            identifier("a"),
            Token::Assign,
            number_token("5"),
            identifier("a"),
            Token::CloseCurlyBrackets
        ]),
        Ok(call(
            "__add",
            vec![
                var("a"),
                KodyNode::IfStatement {
                    condition: Box::new(boolean(true)),
                    action: Box::new(KodyNode::CodeBlock { statements: vec![set("a", num(5)), var("a")] }),
                    else_action: None
                }
            ]
        ))
    )
}

#[test]
fn mod_logic_operators() {
    assert_eq!(
        parse_expression_tokens(&[
            Token::Not,
            Token::OpenParentheses,
            Token::True,
            Token::And,
            Token::False,
            Token::Or,
            Token::True,
            Token::CloseParentheses
        ]),
        Ok(call(
            "__not",
            vec![call("__or", vec![call("__and", vec![boolean(true), boolean(false)]), boolean(true)])]
        ))
    )
}

#[test]
fn control_flow() {
    assert_eq!(
        parse_expression_tokens(&[
            Token::If,
            identifier("y"),
            Token::Equals,
            number_token("1"),
            identifier("print"),
            Token::OpenParentheses,
            identifier("y"),
            Token::CloseParentheses
        ]),
        Ok(KodyNode::IfStatement {
            condition: Box::new(call("__equal", vec![var("y"), num(1)])),
            action: Box::new(call("print", vec![var("y")])),
            else_action: None
        })
    );
    assert_eq!(
        parse_expression_tokens(&[
            Token::While,
            identifier("check"),
            Token::OpenParentheses,
            identifier("x"),
            Token::CloseParentheses,
            Token::OpenCurlyBrackets,
            identifier("x"),
            Token::DivideAssign,
            identifier("y"),
            identifier("y"),
            Token::Assign,
            number_token("2"),
            Token::CloseCurlyBrackets,
        ]),
        Ok(KodyNode::WhileStatement {
            condition: Box::new(call("check", vec![var("x")])),
            action: Box::new(KodyNode::CodeBlock {
                statements: vec![
                    set("x", call("__divide", vec![var("x"), var("y")])),
                    set("y", num(2))
                ]
            })
        })
    );
}

#[test]
fn precedence_from_source() {
    let tokens = tokenize("5 - 3").unwrap();
    assert_eq!(parse_expression_tokens(&tokens), Ok(call("__subtract", vec![num(5), num(3)])));
    let tokens = tokenize("x = 3 / -5").unwrap();
    assert_eq!(
        parse_expression_tokens(&tokens),
        Ok(set("x", call("__divide", vec![num(3), call("__negate", vec![num(5)])])))
    );
    let tokens = tokenize("a < b == c").unwrap();
    assert_eq!(
        parse_expression_tokens(&tokens),
        Ok(call("__less_than", vec![var("a"), call("__equal", vec![var("b"), var("c")])]))
    );
    let tokens = tokenize("(a) * (b)").unwrap();
    assert_eq!(parse_expression_tokens(&tokens), Ok(call("__multiply", vec![var("a"), var("b")])));
}

#[test]
fn compound_assignment_desugars() {
    let tokens = tokenize("x += 2").unwrap();
    assert_eq!(parse_expression_tokens(&tokens), Ok(set("x", call("__add", vec![var("x"), num(2)]))));
    let tokens = tokenize("x -= 2").unwrap();
    assert_eq!(parse_expression_tokens(&tokens), Ok(set("x", call("__subtract", vec![var("x"), num(2)]))));
}

#[test]
fn return_forms() {
    assert_eq!(
        parse_expression_tokens(&[Token::Return]),
        Ok(KodyNode::ReturnFromFunction {
            return_value: Box::new(KodyNode::GetConstant { value: KodyObject::new() })
        })
    );
    assert_eq!(
        parse_expression_tokens(&[Token::Return, number_token("1")]),
        Ok(KodyNode::ReturnFromFunction { return_value: Box::new(num(1)) })
    );
}

#[test]
fn member_access_node() {
    let tokens = tokenize("x.y").unwrap();
    assert_eq!(
        parse_expression_tokens(&tokens),
        Ok(KodyNode::GetMember { base_object: Box::new(var("x")), member_name: String::from("y") })
    );
}

#[test]
fn parse_error_kinds() {
    assert_eq!(parse_expression_tokens(&[]), Err(ParseError::EmptyExpression));
    assert_eq!(parse_expression_tokens(&tokenize("1 = 2").unwrap()), Err(ParseError::AssignmentToNonIdentifier));
    assert_eq!(parse_expression_tokens(&tokenize("x =").unwrap()), Err(ParseError::NoValueAfterAssignment));
    assert_eq!(parse_expression_tokens(&tokenize("+").unwrap()), Err(ParseError::MalformedExpression));
    assert_eq!(parse_expression_tokens(&tokenize("if").unwrap()), Err(ParseError::ExpectedTokensAfterIf));
    assert_eq!(parse_expression_tokens(&tokenize("while x").unwrap()), Err(ParseError::ExpectedTokensAfterCondition));
    assert_eq!(parse_expression_tokens(&tokenize("f)").unwrap()), Err(ParseError::UnmatchedParentheses));
    assert_eq!(parse_tokens(&tokenize("func f() { 1 }").unwrap()).err(), Some(ParseError::EmptyProgram));
    assert_eq!(parse_tokens(&tokenize("func (x) { 1 } 2").unwrap()).err(), Some(ParseError::ExpectedFunctionName));
    assert_eq!(parse_tokens(&tokenize("func f x { 1 } 2").unwrap()).err(), Some(ParseError::ExpectedParenthesesAfterFunctionName));
    assert_eq!(parse_tokens(&tokenize("x = { 1").unwrap()).err(), Some(ParseError::UnclosedBlock));
    assert_eq!(parse_tokens(&[]).err(), Some(ParseError::EmptyProgram));
}

#[test]
fn functions_are_hoisted() {
    let tree = parse_tokens(&tokenize("print(1)\nfunc add(x, y) { return x + y }\nprint(2)").unwrap()).unwrap();
    assert_eq!(tree.functions.len(), 1);
    assert_eq!(tree.functions[0].name, "add");
    assert_eq!(tree.functions[0].arguments, vec![String::from("x"), String::from("y")]);
    assert_eq!(
        tree.main,
        KodyNode::CodeBlock { statements: vec![call("print", vec![num(1)]), call("print", vec![num(2)])] }
    );
}

#[test]
fn more_parse_error_kinds() {
    assert_eq!(parse_tokens(&tokenize("if x { 1 } else").unwrap()).err(), Some(ParseError::ExpectedTokensAfterElse));
    assert_eq!(parse_tokens(&tokenize("while").unwrap()).err(), Some(ParseError::ExpectedTokensAfterWhile));
    assert_eq!(parse_tokens(&tokenize("x = 1 + else").unwrap()).err(), Some(ParseError::UnexpectedElse));
    assert_eq!(parse_tokens(&tokenize("x = - return").unwrap()).err(), Some(ParseError::UnexpectedReturn));
    assert_eq!(parse_tokens(&tokenize("func f(a b) { 1 } 2").unwrap()).err(), Some(ParseError::UnexpectedTokenInArguments));
    assert_eq!(parse_tokens(&tokenize("func f(a, b").unwrap()).err(), Some(ParseError::UnclosedFunctionArguments));
    assert_eq!(parse_tokens(&tokenize("func f()").unwrap()).err(), Some(ParseError::MissingFunctionBody));
    assert_eq!(parse_tokens(&tokenize("func f() 1 + func g() 2 3").unwrap()).err(), Some(ParseError::UnfinishedExpressionBeforeFunction));
    assert_eq!(parse_expression_tokens(&tokenize("1 + + 2").unwrap()), Err(ParseError::ConsecutiveAdditiveOperators));
}

#[test]
fn else_branch_is_parsed() {
    let tokens = tokenize("if a b else c").unwrap();
    assert_eq!(
        parse_expression_tokens(&tokens),
        Ok(KodyNode::IfStatement {
            condition: Box::new(var("a")),
            action: Box::new(var("b")),
            else_action: Some(Box::new(var("c")))
        })
    );
}
