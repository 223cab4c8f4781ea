use kody::tokenizer::{tokenize, LexError, Token};

#[test]
fn comments() {
    assert_eq!(
        tokenize(
            "# this is a test to see if the 
        #tokenizer correctly igores # comments
        +"
        )
        .unwrap(),
        vec![Token::Add]
    );
}

#[test]
fn identifiers() {
    assert_eq!(
        tokenize("id = value").unwrap(),
        vec![
            Token::Identifier(String::from("id")),
            Token::Assign,
            Token::Identifier(String::from("value"))
        ]
    );
}

#[test]
fn operators() {
    assert_eq!(
        tokenize("+-  / * =").unwrap(),
        vec![
            Token::Add,
            Token::Subtract,
            Token::Divide,
            Token::Multiply,
            Token::Assign
        ]
    );
}

#[test]
fn numbers() {
    assert_eq!(
        tokenize("12, 0000_25_._300, 0.0, 2., 0").unwrap(),
        vec![
            Token::Number(String::from("12")),
            Token::Separator,
            Token::Number(String::from("25.3")),
            Token::Separator,
            Token::Number(String::from("0.0")),
            Token::Separator,
            Token::Number(String::from("2.0")),
            Token::Separator,
            Token::Number(String::from("0")),
        ]
    );
}

#[test]
fn errors() {
    assert!(tokenize("0000_.25_._300").is_err());
    assert!(tokenize("12units").is_err());
    assert!(tokenize("unknown symbol&").is_err());
    assert!(tokenize("\" this is an unclosed string # not a comment").is_err());
    assert!(tokenize(" \" unused \\ in a string literal \" ").is_err());
    assert!(tokenize("\"\\U+1021fFF\"").is_err());
}

#[test]
fn member_access() {
    assert_eq!(
        tokenize("x.y").unwrap(),
        vec![
            Token::Identifier(String::from("x")),
            Token::MemberAccess,
            Token::Identifier(String::from("y"))
        ]
    );
}

#[test]
fn functions() {
    assert_eq!(
        tokenize(
            "func add(x, y) {
            return x + y
            }"
        )
        .unwrap(),
        vec![
            Token::FunctionDef,
            Token::Identifier(String::from("add")),
            Token::OpenParentheses,
            Token::Identifier(String::from("x")),
            Token::Separator,
            Token::Identifier(String::from("y")),
            Token::CloseParentheses,
            Token::OpenCurlyBrackets,
            Token::Return,
            Token::Identifier(String::from("x")),
            Token::Add,
            Token::Identifier(String::from("y")),
            Token::CloseCurlyBrackets
        ]
    );
}

#[test]
fn tokenizer_logic_operators() {
    assert_eq!(
        tokenize(
            "false or true and if not false 
            true 
        else 
            true or false"
        )
        .unwrap(),
        vec![
            Token::False,
            Token::Or,
            Token::True,
            Token::And,
            Token::If,
            Token::Not,
            Token::False,
            Token::True,
            Token::Else,
            Token::True,
            Token::Or,
            Token::False
        ]
    );
}

#[test]
fn strings() {
    assert_eq!(
        tokenize(
            "
            \"this is a string \\\non one line\"
             \"\\\"\\\'\\n\\\\\" 
             \"\\U+4B\\U+3B6\\U+2764\\U+1F4af\"
             "
        )
        .unwrap(),
        vec![
            Token::StringLiteral(String::from("this is a string on one line")),
            Token::StringLiteral(String::from("\"\'\n\\")),
            Token::StringLiteral(String::from("K\u{3b6}\u{2764}\u{1f4af}")),
        ]
    );
}

#[test]
fn canonical_literals_stay_canonical() {
    for text in ["25.3", "2.0", "0.0", "0", "12", "120", "100.5"] {
        assert_eq!(tokenize(text).unwrap(), vec![Token::Number(String::from(text))]);
    }
    assert_eq!(tokenize("007.250").unwrap(), vec![Token::Number(String::from("7.25"))]);
    assert_eq!(tokenize("1_000").unwrap(), vec![Token::Number(String::from("1000"))]);
}

#[test]
fn two_character_operators() {
    assert_eq!(
        tokenize("+= -= *= /= == != <= >= < > ( ) { }").unwrap(),
        vec![
            Token::AddAssign,
            Token::SubtractAssign,
            Token::MultiplyAssign,
            Token::DivideAssign,
            Token::Equals,
            Token::NotEqual,
            Token::LessThanOrEqual,
            Token::GreaterThanOrEqual,
            Token::LessThan,
            Token::GreaterThan,
            Token::OpenParentheses,
            Token::CloseParentheses,
            Token::OpenCurlyBrackets,
            Token::CloseCurlyBrackets,
        ]
    );
}

#[test]
fn lexical_error_kinds() {
    assert_eq!(tokenize("\"open"), Err(LexError::UnterminatedString));
    assert_eq!(tokenize("\"\\q\""), Err(LexError::InvalidEscape));
    assert_eq!(tokenize("\"\\U4B\""), Err(LexError::InvalidUnicodeEscape));
    assert_eq!(tokenize("\"\\U+\""), Err(LexError::InvalidUnicodeEscape));
    assert_eq!(tokenize("\"\\U+D800\""), Err(LexError::InvalidCodePoint));
    assert_eq!(tokenize("1.2.3"), Err(LexError::MultipleDecimalPoints));
    assert_eq!(tokenize("3px"), Err(LexError::LetterInNumber));
    assert_eq!(tokenize("a & b"), Err(LexError::UnknownCharacter('&')));
    assert_eq!(tokenize("!"), Err(LexError::UnknownCharacter('!')));
}

#[test]
fn empty_source_has_no_tokens() {
    assert_eq!(tokenize("   \n\t# only a comment").unwrap(), vec![]);
}
