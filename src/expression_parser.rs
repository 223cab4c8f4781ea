use vstd::prelude::*;
use crate::number::{digit_count, digits_value, fraction_digits, pow10, KodyNumber};
use crate::objects::{KodyObject, KodyValue};
use crate::syntax_tree::{identify_expressions, get_next_expression, next_end, segments, KodyNode, ParseError};
use crate::text::owned;
use crate::tokenizer::Token;

verus! {


/// Opening minus closing parentheses in `s[lo..i]`.
pub open spec fn paren_depth(s: Seq<Token>, lo: int, i: int) -> int
    decreases i - lo,
{
    if i <= lo {
        0
    } else {
        paren_depth(s, lo, i - 1) + match s[i - 1] {
            Token::OpenParentheses => 1int,
            Token::CloseParentheses => -1int,
            _ => 0int,
        }
    }
}

/// Opening minus closing curly brackets in `s[lo..i]`.
pub open spec fn curly_depth(s: Seq<Token>, lo: int, i: int) -> int
    decreases i - lo,
{
    if i <= lo {
        0
    } else {
        curly_depth(s, lo, i - 1) + match s[i - 1] {
            Token::OpenCurlyBrackets => 1int,
            Token::CloseCurlyBrackets => -1int,
            _ => 0int,
        }
    }
}

/// The classes of binary and prefix operators, in the order in which the
/// parser looks for them.
#[derive(Clone, Copy, Debug, PartialEq, Eq)]
pub enum OperatorClass {
    Assignment,
    Comparison,
    Additive,
    Multiplicative,
    Or,
    And,
    Not,
}

pub open spec fn in_class(c: OperatorClass, t: Token) -> bool {
    match c {
        OperatorClass::Assignment => t is Assign || t is AddAssign || t is SubtractAssign
            || t is MultiplyAssign || t is DivideAssign,
        OperatorClass::Comparison => t is Equals || t is NotEqual || t is GreaterThan
            || t is GreaterThanOrEqual || t is LessThan || t is LessThanOrEqual,
        OperatorClass::Additive => t is Add || t is Subtract,
        OperatorClass::Multiplicative => t is Multiply || t is Divide,
        OperatorClass::Or => t is Or,
        OperatorClass::And => t is And,
        OperatorClass::Not => t is Not,
    }
}

/// A token after which `+` and `-` are binary.
pub open spec fn ends_operand(t: Token) -> bool {
    t is Number || t is Identifier || t is StringLiteral || t is CloseParentheses
        || t is CloseCurlyBrackets
}

/// `s[i]` is an operator of class `c` outside any brackets of `s[lo..]`
/// (and, for `+` and `-`, binary).
pub open spec fn qualifies(c: OperatorClass, s: Seq<Token>, lo: int, i: int) -> bool {
    &&& in_class(c, s[i])
    &&& paren_depth(s, lo, i) <= 0
    &&& curly_depth(s, lo, i) <= 0
    &&& c == OperatorClass::Additive ==> i > lo && ends_operand(s[i - 1])
}

/// `i` is the first operator of class `c` that stands at the top level of `s[lo..hi]`.
pub open spec fn first_qualifying(c: OperatorClass, s: Seq<Token>, lo: int, hi: int, i: int) -> bool {
    &&& lo <= i < hi
    &&& qualifies(c, s, lo, i)
    &&& forall|j: int| lo <= j < i ==> !qualifies(c, s, lo, j)
}

pub open spec fn has_qualifying(c: OperatorClass, s: Seq<Token>, lo: int, hi: int) -> bool {
    exists|i: int| lo <= i < hi && qualifies(c, s, lo, i)
}

fn in_class_exec(c: OperatorClass, t: &Token) -> (r: bool)
    ensures
        r == in_class(c, *t),
{
    match c {
        OperatorClass::Assignment => matches!(t, Token::Assign | Token::AddAssign | Token::SubtractAssign | Token::MultiplyAssign | Token::DivideAssign),
        OperatorClass::Comparison => matches!(t, Token::Equals | Token::NotEqual | Token::GreaterThan | Token::GreaterThanOrEqual | Token::LessThan | Token::LessThanOrEqual),
        OperatorClass::Additive => matches!(t, Token::Add | Token::Subtract),
        OperatorClass::Multiplicative => matches!(t, Token::Multiply | Token::Divide),
        OperatorClass::Or => matches!(t, Token::Or),
        OperatorClass::And => matches!(t, Token::And),
        OperatorClass::Not => matches!(t, Token::Not),
    }
}

fn ends_operand_exec(t: &Token) -> (r: bool)
    ensures
        r == ends_operand(*t),
{
    matches!(t, Token::Number(_) | Token::Identifier(_) | Token::StringLiteral(_) | Token::CloseParentheses | Token::CloseCurlyBrackets)
}

/// Whether `tokens[index]` lies inside a `{ }` block opened in `tokens[..index]`.
pub fn is_in_codeblock(tokens: &[Token], index: usize) -> (r: bool)
    requires
        index <= tokens@.len(),
    ensures
        r == (curly_depth(tokens@, 0, index as int) > 0),
{
    let mut opens: usize = 0;
    let mut closes: usize = 0;
    let mut i: usize = 0;
    while i < index
        invariant
            i <= index <= tokens@.len(),
            opens <= i,
            closes <= i,
            curly_depth(tokens@, 0, i as int) == opens - closes,
        decreases index - i,
    {
        match &tokens[i] {
            Token::OpenCurlyBrackets => opens = opens + 1,
            Token::CloseCurlyBrackets => closes = closes + 1,
            _ => {},
        }
        i = i + 1;
    }
    opens > closes
}

/// Whether `tokens[index]` lies inside parentheses opened in `tokens[..index]`.
pub fn is_in_parentheses(tokens: &[Token], index: usize) -> (r: bool)
    requires
        index <= tokens@.len(),
    ensures
        r == (paren_depth(tokens@, 0, index as int) > 0),
{
    let mut opens: usize = 0;
    let mut closes: usize = 0;
    let mut i: usize = 0;
    while i < index
        invariant
            i <= index <= tokens@.len(),
            opens <= i,
            closes <= i,
            paren_depth(tokens@, 0, i as int) == opens - closes,
        decreases index - i,
    {
        match &tokens[i] {
            Token::OpenParentheses => opens = opens + 1,
            Token::CloseParentheses => closes = closes + 1,
            _ => {},
        }
        i = i + 1;
    }
    opens > closes
}

/// The first operator of class `c` at the top level of `tokens[lo..hi]`.
pub fn first_operator(tokens: &[Token], lo: usize, hi: usize, c: OperatorClass) -> (r: Option<usize>)
    requires
        lo <= hi <= tokens@.len(),
    ensures
        r matches Some(i) ==> first_qualifying(c, tokens@, lo as int, hi as int, i as int),
        r is None ==> !has_qualifying(c, tokens@, lo as int, hi as int),
{
    let mut paren_opens: usize = 0;
    let mut paren_closes: usize = 0;
    let mut curly_opens: usize = 0;
    let mut curly_closes: usize = 0;
    let mut i = lo;
    while i < hi
        invariant
            lo <= i <= hi <= tokens@.len(),
            paren_opens <= i - lo,
            paren_closes <= i - lo,
            curly_opens <= i - lo,
            curly_closes <= i - lo,
            paren_depth(tokens@, lo as int, i as int) == paren_opens - paren_closes,
            curly_depth(tokens@, lo as int, i as int) == curly_opens - curly_closes,
            forall|j: int| lo <= j < i ==> !qualifies(c, tokens@, lo as int, j),
        decreases hi - i,
    {
        let t = &tokens[i];
        if in_class_exec(c, t) && paren_opens <= paren_closes && curly_opens <= curly_closes {
            let binary_ok = match c {
                OperatorClass::Additive => i > lo && ends_operand_exec(&tokens[i - 1]),
                _ => true,
            };
            if binary_ok {
                return Some(i);
            }
        }
        match t {
            Token::OpenParentheses => paren_opens = paren_opens + 1,
            Token::CloseParentheses => paren_closes = paren_closes + 1,
            Token::OpenCurlyBrackets => curly_opens = curly_opens + 1,
            Token::CloseCurlyBrackets => curly_closes = curly_closes + 1,
            _ => {},
        }
        i = i + 1;
    }
    None
}


/// The reserved name of the native function that an operator token calls.
pub open spec fn operator_name(t: Token) -> Seq<char> {
    match t {
        Token::Add | Token::AddAssign => "__add"@,
        Token::Subtract | Token::SubtractAssign => "__subtract"@,
        Token::Multiply | Token::MultiplyAssign => "__multiply"@,
        Token::Divide | Token::DivideAssign => "__divide"@,
        Token::Equals => "__equal"@,
        Token::NotEqual => "__not_equal"@,
        Token::GreaterThan => "__greater_than"@,
        Token::GreaterThanOrEqual => "__greater_than_or_equal"@,
        Token::LessThan => "__less_than"@,
        Token::LessThanOrEqual => "__less_than_or_equal"@,
        Token::Or => "__or"@,
        Token::And => "__and"@,
        Token::Not => "__not"@,
        _ => Seq::empty(),
    }
}

fn operator_name_of(t: &Token) -> (r: String)
    ensures
        r@ == operator_name(*t),
{
    match t {
        Token::Add | Token::AddAssign => owned("__add"),
        Token::Subtract | Token::SubtractAssign => owned("__subtract"),
        Token::Multiply | Token::MultiplyAssign => owned("__multiply"),
        Token::Divide | Token::DivideAssign => owned("__divide"),
        Token::Equals => owned("__equal"),
        Token::NotEqual => owned("__not_equal"),
        Token::GreaterThan => owned("__greater_than"),
        Token::GreaterThanOrEqual => owned("__greater_than_or_equal"),
        Token::LessThan => owned("__less_than"),
        Token::LessThanOrEqual => owned("__less_than_or_equal"),
        Token::Or => owned("__or"),
        Token::And => owned("__and"),
        Token::Not => owned("__not"),
        _ => String::new(),
    }
}

/// `n` calls the variable named `name` with `argc` arguments.
pub open spec fn calls(n: KodyNode, name: Seq<char>, argc: nat) -> bool {
    match n {
        KodyNode::CallFunction { function, arguments } => {
            &&& match *function {
                KodyNode::GetVariable { name: f } => f@ == name,
                _ => false,
            }
            &&& arguments@.len() == argc
        },
        _ => false,
    }
}

fn call_node(name: String, arguments: Vec<KodyNode>) -> (r: KodyNode)
    ensures
        calls(r, name@, arguments@.len()),
        r matches KodyNode::CallFunction { function, arguments: a } && a@ == arguments@,
{
    KodyNode::CallFunction {
        function: Box::new(KodyNode::GetVariable { name }),
        arguments,
    }
}

pub open spec fn as_position(r: Option<usize>) -> Option<int> {
    match r {
        Some(j) => Some(j as int),
        None => None,
    }
}

/// The index of the bracket (parenthesis, or curly bracket where `curly`)
/// that closes one opened before `j`, with `depth` opened since.
pub open spec fn close_of(s: Seq<Token>, j: int, hi: int, depth: nat, curly: bool) -> Option<int>
    decreases hi - j,
{
    if j < 0 || j >= hi || j >= s.len() {
        None
    } else if (curly && s[j] is OpenCurlyBrackets) || (!curly && s[j] is OpenParentheses) {
        close_of(s, j + 1, hi, depth + 1, curly)
    } else if (curly && s[j] is CloseCurlyBrackets) || (!curly && s[j] is CloseParentheses) {
        if depth == 0 {
            Some(j)
        } else {
            close_of(s, j + 1, hi, (depth - 1) as nat, curly)
        }
    } else {
        close_of(s, j + 1, hi, depth, curly)
    }
}

/// The index of the bracket that closes the one at `lo` (parentheses, or
/// curly brackets where `curly`), if it lies before `hi`.
fn matching_close(tokens: &[Token], lo: usize, hi: usize, curly: bool) -> (r: Option<usize>)
    requires
        lo < hi <= tokens@.len(),
    ensures
        r matches Some(j) ==> lo < j < hi,
        as_position(r) == close_of(tokens@, lo + 1, hi as int, 0, curly),
{
    let mut depth: usize = 0;
    let mut j = lo + 1;
    while j < hi
        invariant
            lo < j <= hi <= tokens@.len(),
            depth <= j - lo,
            close_of(tokens@, j as int, hi as int, depth as nat, curly) == close_of(tokens@, lo + 1, hi as int, 0, curly),
        decreases hi - j,
    {
        let opens = if curly {
            matches!(tokens[j], Token::OpenCurlyBrackets)
        } else {
            matches!(tokens[j], Token::OpenParentheses)
        };
        let closes = if curly {
            matches!(tokens[j], Token::CloseCurlyBrackets)
        } else {
            matches!(tokens[j], Token::CloseParentheses)
        };
        if opens {
            depth = depth + 1;
        } else if closes {
            if depth == 0 {
                return Some(j);
            }
            depth = depth - 1;
        }
        j = j + 1;
    }
    None
}

/// The `(` that opens the argument list closed by the `)` at `hi - 1`,
/// scanning left from `j` with `depth` lists still open.
pub open spec fn call_open(s: Seq<Token>, lo: int, j: int, depth: nat) -> Option<int>
    decreases j - lo,
{
    if j <= lo || j > s.len() {
        None
    } else if s[j - 1] is CloseParentheses {
        call_open(s, lo, j - 1, depth + 1)
    } else if s[j - 1] is OpenParentheses {
        if depth <= 1 {
            Some(j - 1)
        } else {
            call_open(s, lo, j - 1, (depth - 1) as nat)
        }
    } else {
        call_open(s, lo, j - 1, depth)
    }
}

/// The spans of the arguments in `s[k..b]`, split at separators outside
/// nested parentheses; the current argument started at `start`.
pub open spec fn arg_spans(s: Seq<Token>, k: int, b: int, start: int, nesting: nat) -> Seq<(int, int)>
    decreases b - k,
{
    if k >= b || k < 0 || k >= s.len() {
        seq![(start, b)]
    } else if s[k] is OpenParentheses {
        arg_spans(s, k + 1, b, start, nesting + 1)
    } else if s[k] is CloseParentheses {
        arg_spans(s, k + 1, b, start, if nesting > 0 { (nesting - 1) as nat } else { 0 })
    } else if s[k] is Separator && nesting == 0 {
        seq![(start, k)] + arg_spans(s, k + 1, b, k + 1, 0)
    } else {
        arg_spans(s, k + 1, b, start, nesting)
    }
}

proof fn lemma_arg_spans_within(s: Seq<Token>, k: int, b: int, start: int, nesting: nat)
    requires
        start <= k <= b,
    ensures
        forall|m: int| 0 <= m < arg_spans(s, k, b, start, nesting).len() ==> start <= (#[trigger] arg_spans(s, k, b, start, nesting)[m]).0
            <= arg_spans(s, k, b, start, nesting)[m].1 <= b,
    decreases b - k,
{
    let r = arg_spans(s, k, b, start, nesting);
    if k >= b || k < 0 || k >= s.len() {
        assert(r == seq![(start, b)]);
        assert(r[0] == (start, b));
    } else if s[k] is OpenParentheses {
        lemma_arg_spans_within(s, k + 1, b, start, nesting + 1);
        assert(r == arg_spans(s, k + 1, b, start, nesting + 1));
    } else if s[k] is CloseParentheses {
        let n2: nat = if nesting > 0 { (nesting - 1) as nat } else { 0 };
        lemma_arg_spans_within(s, k + 1, b, start, n2);
        assert(r == arg_spans(s, k + 1, b, start, n2));
    } else if s[k] is Separator && nesting == 0 {
        lemma_arg_spans_within(s, k + 1, b, k + 1, 0);
        let rest = arg_spans(s, k + 1, b, k + 1, 0);
        assert(r == seq![(start, k)] + rest);
        assert forall|m: int| 0 <= m < r.len() implies start <= (#[trigger] r[m]).0 <= r[m].1 <= b by {
            if m > 0 {
                assert(r[m] == rest[m - 1]);
            } else {
                assert(r[0] == (start, k));
            }
        }
    } else {
        lemma_arg_spans_within(s, k + 1, b, start, nesting);
        assert(r == arg_spans(s, k + 1, b, start, nesting));
    }
}

/// The index of the `(` that opens the argument list ending at `hi - 1`.
fn find_call_open(tokens: &[Token], lo: usize, hi: usize) -> (r: Option<usize>)
    requires
        lo < hi <= tokens@.len(),
    ensures
        as_position(r) == call_open(tokens@, lo as int, hi - 1, 1),
        r matches Some(o) ==> lo <= o < hi - 1,
{
    let mut depth: usize = 1;
    let mut j = hi - 1;
    while j > lo
        invariant
            lo <= j < hi <= tokens@.len(),
            1 <= depth <= hi - j,
            call_open(tokens@, lo as int, j as int, depth as nat) == call_open(tokens@, lo as int, hi - 1, 1),
        decreases j,
    {
        if matches!(tokens[j - 1], Token::CloseParentheses) {
            depth = depth + 1;
        } else if matches!(tokens[j - 1], Token::OpenParentheses) {
            if depth == 1 {
                return Some(j - 1);
            }
            depth = depth - 1;
        }
        j = j - 1;
    }
    None
}

/// The spans of the arguments in `tokens[a..b]` (non-empty).
fn argument_spans(tokens: &[Token], a: usize, b: usize) -> (r: Vec<(usize, usize)>)
    requires
        a < b <= tokens@.len(),
    ensures
        crate::syntax_tree::spans_as_int(r@) == arg_spans(tokens@, a as int, b as int, a as int, 0),
{
    let mut spans: Vec<(usize, usize)> = Vec::new();
    let mut nesting: usize = 0;
    let mut start = a;
    let mut k = a;
    while k < b
        invariant
            a <= start <= k <= b,
            b <= tokens@.len(),
            nesting <= k - a,
            crate::syntax_tree::spans_as_int(spans@) + arg_spans(tokens@, k as int, b as int, start as int, nesting as nat)
                == arg_spans(tokens@, a as int, b as int, a as int, 0),
        decreases b - k,
    {
        if matches!(tokens[k], Token::OpenParentheses) {
            nesting = nesting + 1;
        } else if matches!(tokens[k], Token::CloseParentheses) {
            nesting = if nesting > 0 { nesting - 1 } else { 0 };
        } else if matches!(tokens[k], Token::Separator) && nesting == 0 {
            proof {
                let rest = arg_spans(tokens@, k + 1, b as int, k + 1, 0);
                assert(crate::syntax_tree::spans_as_int(spans@.push((start, k))) + rest =~= crate::syntax_tree::spans_as_int(spans@) + (seq![(start as int, k as int)] + rest));
            }
            spans.push((start, k));
            start = k + 1;
        }
        k = k + 1;
    }
    proof {
        assert(crate::syntax_tree::spans_as_int(spans@.push((start, b))) =~= crate::syntax_tree::spans_as_int(spans@) + seq![(start as int, b as int)]);
    }
    spans.push((start, b));
    spans
}

/// The constant or variable that a single token stands for.
fn check_value(tokens: &[Token], lo: usize, hi: usize) -> (r: Result<Option<KodyNode>, ParseError>)
    requires
        lo < hi <= tokens@.len(),
    ensures
        hi - lo != 1 ==> r == Ok::<Option<KodyNode>, ParseError>(None),
        hi - lo == 1 ==> claim(7, tokens@, lo as int, hi as int, r),
{
    if hi - lo != 1 {
        return Ok(None);
    }
    match &tokens[lo] {
        Token::Identifier(name) => Ok(Some(KodyNode::GetVariable { name: name.clone() })),
        Token::StringLiteral(text) => Ok(
            Some(
                KodyNode::GetConstant {
                    value: KodyObject::from(KodyValue::StringLiteral(text.clone())),
                },
            ),
        ),
        Token::Number(text) => Ok(
            Some(
                KodyNode::GetConstant {
                    value: KodyObject::from(KodyValue::Number(KodyNumber::from_literal(text.as_str()))),
                },
            ),
        ),
        Token::True => Ok(Some(KodyNode::GetConstant { value: KodyObject::from(KodyValue::Bool(true)) })),
        Token::False => Ok(Some(KodyNode::GetConstant { value: KodyObject::from(KodyValue::Bool(false)) })),
        _ => Err(ParseError::MalformedExpression),
    }
}



pub open spec fn is_value_token(t: Token) -> bool {
    t is Identifier || t is StringLiteral || t is Number || t is True || t is False
}

/// The rule that claims `s[lo..hi]`, in the order the parser tries them:
/// 0 empty, 1 parenthesized, 2 block, 3 `return`, 4 `if`, 5 `while`, 6 unary
/// `-`, 7 single token, 8 assignment, 9 comparison, 10 `+`/`-`, 11 `*`/`/`,
/// 12 `or`, 13 `and`, 14 `not`, 15 call, 16 member access, 17 none.
pub open spec fn span_rule(s: Seq<Token>, lo: int, hi: int) -> nat {
    if !(0 <= lo < hi <= s.len()) {
        0
    } else if s[lo] is OpenParentheses && close_of(s, lo + 1, hi, 0, false) == Some(hi - 1) {
        1
    } else if s[lo] is OpenCurlyBrackets && close_of(s, lo + 1, hi, 0, true) == Some(hi - 1) {
        2
    } else if s[lo] is Return {
        3
    } else if s[lo] is If {
        4
    } else if s[lo] is While {
        5
    } else if s[lo] is Subtract {
        6
    } else if hi - lo == 1 {
        7
    } else if has_qualifying(OperatorClass::Assignment, s, lo, hi) {
        8
    } else if has_qualifying(OperatorClass::Comparison, s, lo, hi) {
        9
    } else if has_qualifying(OperatorClass::Additive, s, lo, hi) {
        10
    } else if has_qualifying(OperatorClass::Multiplicative, s, lo, hi) {
        11
    } else if has_qualifying(OperatorClass::Or, s, lo, hi) {
        12
    } else if has_qualifying(OperatorClass::And, s, lo, hi) {
        13
    } else if has_qualifying(OperatorClass::Not, s, lo, hi) {
        14
    } else if s[hi - 1] is CloseParentheses {
        15
    } else if hi - lo >= 3 && s[hi - 2] is MemberAccess && s[hi - 1] is Identifier {
        16
    } else {
        17
    }
}

pub open spec fn binary_class(rule: nat) -> OperatorClass {
    if rule == 9 {
        OperatorClass::Comparison
    } else if rule == 10 {
        OperatorClass::Additive
    } else if rule == 11 {
        OperatorClass::Multiplicative
    } else if rule == 12 {
        OperatorClass::Or
    } else {
        OperatorClass::And
    }
}

/// The index of the first top-level operator of class `c`.
pub open spec fn first_op(c: OperatorClass, s: Seq<Token>, lo: int, hi: int) -> int {
    choose|i: int| first_qualifying(c, s, lo, hi, i)
}

pub open spec fn first_some(a: Option<ParseError>, b: Option<ParseError>) -> Option<ParseError> {
    if a is Some {
        a
    } else {
        b
    }
}

/// The error of parsing `s[lo..hi]`, or `None` if it parses.
pub open spec fn parse_error(s: Seq<Token>, lo: int, hi: int) -> Option<ParseError>
    decreases hi - lo, 2nat, 0nat,
{
    rule_error(span_rule(s, lo, hi), s, lo, hi)
}

/// The error of parsing `s[lo..hi]` by rule `k`.
pub open spec fn rule_error(k: nat, s: Seq<Token>, lo: int, hi: int) -> Option<ParseError>
    decreases hi - lo, 1nat, 0nat,
{
    if !(0 <= lo < hi <= s.len()) {
        Some(ParseError::EmptyExpression)
    } else if k == 1 {
        if hi - lo >= 2 {
            parse_error(s, lo + 1, hi - 1)
        } else {
            None
        }
    } else if k == 2 {
        if hi - lo >= 2 {
            block_error(s, lo + 1, hi - 1)
        } else {
            None
        }
    } else if k == 3 {
        if hi - lo == 1 {
            None
        } else {
            parse_error(s, lo + 1, hi)
        }
    } else if k == 4 || k == 5 {
        if hi - lo == 1 {
            Some(if k == 4 { ParseError::ExpectedTokensAfterIf } else { ParseError::ExpectedTokensAfterWhile })
        } else {
            match next_end(s, lo + 1, hi) {
                Err(e) => Some(e),
                Ok(c) => if c == hi {
                    Some(ParseError::ExpectedTokensAfterCondition)
                } else if !(lo + 1 < c < hi) {
                    None
                } else {
                    match next_end(s, c, hi) {
                        Err(e) => Some(e),
                        Ok(a) => if !(c < a <= hi) {
                            None
                        } else {
                            let else_error = if k == 4 && a < hi && s[a] is Else {
                                if hi - a < 2 {
                                    Some(ParseError::ExpectedTokensAfterElse)
                                } else {
                                    parse_error(s, a + 1, hi)
                                }
                            } else {
                                None
                            };
                            first_some(else_error, first_some(parse_error(s, lo + 1, c), parse_error(s, c, a)))
                        },
                    }
                },
            }
        }
    } else if k == 6 {
        parse_error(s, lo + 1, hi)
    } else if k == 7 {
        if is_value_token(s[lo]) {
            None
        } else {
            Some(ParseError::MalformedExpression)
        }
    } else if k == 8 {
        let i = first_op(OperatorClass::Assignment, s, lo, hi);
        if !(lo <= i < hi) {
            None
        } else if i + 1 == hi {
            Some(ParseError::NoValueAfterAssignment)
        } else if i != lo + 1 || !(s[lo] is Identifier) {
            Some(ParseError::AssignmentToNonIdentifier)
        } else {
            parse_error(s, i + 1, hi)
        }
    } else if 9 <= k <= 13 {
        let c = binary_class(k);
        let i = first_op(c, s, lo, hi);
        if !(lo <= i < hi) {
            None
        } else if c == OperatorClass::Additive && i + 1 < hi && (s[i + 1] is Add || s[i + 1] is Subtract) {
            Some(ParseError::ConsecutiveAdditiveOperators)
        } else {
            first_some(parse_error(s, lo, i), parse_error(s, i + 1, hi))
        }
    } else if k == 14 {
        let i = first_op(OperatorClass::Not, s, lo, hi);
        if !(lo <= i < hi) {
            None
        } else {
            parse_error(s, i + 1, hi)
        }
    } else if k == 15 {
        match call_open(s, lo, hi - 1, 1) {
            None => Some(ParseError::UnmatchedParentheses),
            Some(o) => if o == lo {
                Some(ParseError::MalformedExpression)
            } else if !(lo < o < hi - 1) {
                None
            } else if o + 1 < hi - 1 {
                first_some(parse_error(s, lo, o), spans_error(s, arg_spans(s, o + 1, hi - 1, o + 1, 0), 0, o + 1, hi - 1))
            } else {
                parse_error(s, lo, o)
            },
        }
    } else if k == 16 {
        if hi - lo >= 3 {
            parse_error(s, lo, hi - 2)
        } else {
            None
        }
    } else {
        Some(ParseError::MalformedExpression)
    }
}

/// The error of parsing `s[a..b]` as the statements of a block.
pub open spec fn block_error(s: Seq<Token>, a: int, b: int) -> Option<ParseError>
    decreases b - a, 4nat, 0nat,
{
    match segments(s, a, b) {
        Err(e) => Some(e),
        Ok(spans) => spans_error(s, spans, 0, a, b),
    }
}

/// `nodes` are the statements that `s[a..b]` parses to.
pub open spec fn block_parses(s: Seq<Token>, a: int, b: int, nodes: Seq<KodyNode>) -> bool
    decreases b - a, 4nat, 0nat,
{
    match segments(s, a, b) {
        Err(_) => false,
        Ok(spans) => spans_parse(s, spans, nodes, 0, a, b),
    }
}

/// What a value token parses to.
pub open spec fn value_node(t: Token, n: KodyNode) -> bool {
    match t {
        Token::Identifier(id) => n matches KodyNode::GetVariable { name } && name@ == id@,
        Token::StringLiteral(text) => n matches KodyNode::GetConstant { value } && *value.value
            == KodyValue::StringLiteral(text),
        Token::Number(text) => n matches KodyNode::GetConstant { value } && *value.value is Number
            && (digit_count(text@) <= 19 ==> (*value.value)->Number_0.signed() * pow10(fraction_digits(text@))
            == digits_value(text@) * (*value.value)->Number_0.den()),
        Token::True => n matches KodyNode::GetConstant { value } && *value.value == KodyValue::Bool(true),
        Token::False => n matches KodyNode::GetConstant { value } && *value.value == KodyValue::Bool(false),
        _ => false,
    }
}

/// `n` is what `s[lo..hi]` parses to.
pub open spec fn parses(s: Seq<Token>, lo: int, hi: int, n: KodyNode) -> bool
    decreases hi - lo, 2nat, 0nat,
{
    rule_parses(span_rule(s, lo, hi), s, lo, hi, n)
}

/// `n` is what `s[lo..hi]` parses to by rule `k`.
pub open spec fn rule_parses(k: nat, s: Seq<Token>, lo: int, hi: int, n: KodyNode) -> bool
    decreases hi - lo, 1nat, 0nat,
{
    if !(0 <= lo < hi <= s.len()) {
        false
    } else if k == 1 {
        hi - lo >= 2 && parses(s, lo + 1, hi - 1, n)
    } else if k == 2 {
        hi - lo >= 2 && match n {
            KodyNode::CodeBlock { statements } => block_parses(s, lo + 1, hi - 1, statements@),
            _ => false,
        }
    } else if k == 3 {
        match n {
            KodyNode::ReturnFromFunction { return_value } => if hi - lo == 1 {
                *return_value matches KodyNode::GetConstant { value } && *value.value == KodyValue::Empty
            } else {
                parses(s, lo + 1, hi, *return_value)
            },
            _ => false,
        }
    } else if k == 4 || k == 5 {
        hi - lo >= 2 && match next_end(s, lo + 1, hi) {
            Ok(c) => lo + 1 < c < hi && match next_end(s, c, hi) {
                Ok(a) => c < a <= hi && if k == 4 {
                    match n {
                        KodyNode::IfStatement { condition, action, else_action } => {
                            &&& parses(s, lo + 1, c, *condition)
                            &&& parses(s, c, a, *action)
                            &&& if a < hi && s[a] is Else {
                                hi - a >= 2 && (else_action matches Some(other) && parses(s, a + 1, hi, *other))
                            } else {
                                else_action is None
                            }
                        },
                        _ => false,
                    }
                } else {
                    match n {
                        KodyNode::WhileStatement { condition, action } => parses(s, lo + 1, c, *condition)
                            && parses(s, c, a, *action),
                        _ => false,
                    }
                },
                Err(_) => false,
            },
            Err(_) => false,
        }
    } else if k == 6 {
        match n {
            KodyNode::CallFunction { function, arguments } => calls(n, "__negate"@, 1) && parses(
                s,
                lo + 1,
                hi,
                arguments@[0],
            ),
            _ => false,
        }
    } else if k == 7 {
        value_node(s[lo], n)
    } else if k == 8 {
        let i = first_op(OperatorClass::Assignment, s, lo, hi);
        &&& i == lo + 1
        &&& i + 1 < hi
        &&& s[lo] is Identifier
        &&& match n {
            KodyNode::SetVariable { name, value } => {
                &&& name@ == s[lo]->Identifier_0@
                &&& if s[i] is Assign {
                    parses(s, i + 1, hi, *value)
                } else {
                    match *value {
                        KodyNode::CallFunction { function, arguments } => {
                            &&& calls(*value, operator_name(s[i]), 2)
                            &&& (arguments@[0] matches KodyNode::GetVariable { name: v } && v@ == s[lo]->Identifier_0@)
                            &&& parses(s, i + 1, hi, arguments@[1])
                        },
                        _ => false,
                    }
                }
            },
            _ => false,
        }
    } else if 9 <= k <= 13 {
        let c = binary_class(k);
        let i = first_op(c, s, lo, hi);
        &&& lo <= i < hi
        &&& match n {
            KodyNode::CallFunction { function, arguments } => {
                &&& calls(n, operator_name(s[i]), 2)
                &&& parses(s, lo, i, arguments@[0])
                &&& parses(s, i + 1, hi, arguments@[1])
            },
            _ => false,
        }
    } else if k == 14 {
        let i = first_op(OperatorClass::Not, s, lo, hi);
        &&& lo <= i < hi
        &&& match n {
            KodyNode::CallFunction { function, arguments } => calls(n, "__not"@, 1) && parses(
                s,
                i + 1,
                hi,
                arguments@[0],
            ),
            _ => false,
        }
    } else if k == 15 {
        match call_open(s, lo, hi - 1, 1) {
            Some(o) => lo < o < hi - 1 && match n {
                KodyNode::CallFunction { function, arguments } => {
                    &&& parses(s, lo, o, *function)
                    &&& if o + 1 < hi - 1 {
                        spans_parse(s, arg_spans(s, o + 1, hi - 1, o + 1, 0), arguments@, 0, o + 1, hi - 1)
                    } else {
                        arguments@.len() == 0
                    }
                },
                _ => false,
            },
            None => false,
        }
    } else if k == 16 {
        hi - lo >= 3 && s[hi - 1] is Identifier && match n {
            KodyNode::GetMember { base_object, member_name } => member_name@ == s[hi - 1]->Identifier_0@
                && parses(s, lo, hi - 2, *base_object),
            _ => false,
        }
    } else {
        false
    }
}

/// `nodes[k..]` are what the spans `spans[k..]` parse to, each within `s[a..b]`.
pub open spec fn spans_parse(s: Seq<Token>, spans: Seq<(int, int)>, nodes: Seq<KodyNode>, k: int, a: int, b: int) -> bool
    decreases b - a, 3nat, spans.len() - k,
{
    if k < 0 || k >= spans.len() {
        nodes.len() == spans.len()
    } else {
        &&& a <= spans[k].0 <= spans[k].1 <= b
        &&& k < nodes.len()
        &&& parses(s, spans[k].0, spans[k].1, nodes[k])
        &&& spans_parse(s, spans, nodes, k + 1, a, b)
    }
}

/// The first error among the spans `spans[k..]`, each within `s[a..b]`.
pub open spec fn spans_error(s: Seq<Token>, spans: Seq<(int, int)>, k: int, a: int, b: int) -> Option<ParseError>
    decreases b - a, 3nat, spans.len() - k,
{
    if k < 0 || k >= spans.len() {
        None
    } else if !(a <= spans[k].0 <= spans[k].1 <= b) {
        None
    } else {
        first_some(parse_error(s, spans[k].0, spans[k].1), spans_error(s, spans, k + 1, a, b))
    }
}

/// A rule's result `r` for `s[lo..hi]`: its error, or a node it describes.
pub open spec fn outcome(k: nat, s: Seq<Token>, lo: int, hi: int, r: Result<KodyNode, ParseError>) -> bool {
    match r {
        Ok(n) => rule_error(k, s, lo, hi) is None && rule_parses(k, s, lo, hi, n),
        Err(e) => rule_error(k, s, lo, hi) == Some(e),
    }
}

/// A rule that claims the span gave the result `r`.
pub open spec fn claim(k: nat, s: Seq<Token>, lo: int, hi: int, r: Result<Option<KodyNode>, ParseError>) -> bool {
    match r {
        Ok(Some(n)) => outcome(k, s, lo, hi, Ok(n)),
        Ok(None) => false,
        Err(e) => outcome(k, s, lo, hi, Err(e)),
    }
}

/// `r` is the result of parsing `s[lo..hi]`.
pub open spec fn parsed(s: Seq<Token>, lo: int, hi: int, r: Result<KodyNode, ParseError>) -> bool {
    match r {
        Ok(n) => parse_error(s, lo, hi) is None && parses(s, lo, hi, n),
        Err(e) => parse_error(s, lo, hi) == Some(e),
    }
}

pub open spec fn class_rule(c: OperatorClass) -> nat {
    match c {
        OperatorClass::Assignment => 8,
        OperatorClass::Comparison => 9,
        OperatorClass::Additive => 10,
        OperatorClass::Multiplicative => 11,
        OperatorClass::Or => 12,
        OperatorClass::And => 13,
        OperatorClass::Not => 14,
    }
}

proof fn lemma_first_op(c: OperatorClass, s: Seq<Token>, lo: int, hi: int, i: int)
    requires
        first_qualifying(c, s, lo, hi, i),
    ensures
        first_op(c, s, lo, hi) == i,
{
    let k = first_op(c, s, lo, hi);
    assert(first_qualifying(c, s, lo, hi, k));
    if k < i {
        assert(!qualifies(c, s, lo, k));
    } else if k > i {
        assert(!qualifies(c, s, lo, i));
    }
}

/// Parses `tokens[lo..hi]`: the rules are tried in the order of
/// `span_rule`, and the result is as `parse_error` and `parses` say.
pub fn parse_span(tokens: &[Token], lo: usize, hi: usize) -> (r: Result<KodyNode, ParseError>)
    requires
        lo <= hi <= tokens@.len(),
    ensures
        parsed(tokens@, lo as int, hi as int, r),
    decreases hi - lo, 2nat,
{
    if lo == hi {
        return Err(ParseError::EmptyExpression);
    }
    if let Some(n) = check_parentheses(tokens, lo, hi)? {
        return Ok(n);
    }
    if let Some(n) = check_codeblock(tokens, lo, hi)? {
        return Ok(n);
    }
    if let Some(n) = check_return(tokens, lo, hi)? {
        return Ok(n);
    }
    if let Some(n) = check_if_expression(tokens, lo, hi)? {
        return Ok(n);
    }
    if let Some(n) = check_while_expression(tokens, lo, hi)? {
        return Ok(n);
    }
    if let Some(n) = check_negation(tokens, lo, hi)? {
        return Ok(n);
    }
    if hi - lo == 1 {
        return match check_value(tokens, lo, hi) {
            Ok(Some(n)) => Ok(n),
            Ok(None) => Err(ParseError::MalformedExpression),
            Err(e) => Err(e),
        };
    }
    if let Some(n) = check_assignment(tokens, lo, hi)? {
        return Ok(n);
    }
    if let Some(n) = check_binary(tokens, lo, hi, OperatorClass::Comparison)? {
        return Ok(n);
    }
    if let Some(n) = check_binary(tokens, lo, hi, OperatorClass::Additive)? {
        return Ok(n);
    }
    if let Some(n) = check_binary(tokens, lo, hi, OperatorClass::Multiplicative)? {
        return Ok(n);
    }
    if let Some(n) = check_binary(tokens, lo, hi, OperatorClass::Or)? {
        return Ok(n);
    }
    if let Some(n) = check_binary(tokens, lo, hi, OperatorClass::And)? {
        return Ok(n);
    }
    if let Some(n) = check_not_operator(tokens, lo, hi)? {
        return Ok(n);
    }
    check_function_call_and_member_access(tokens, lo, hi)
}

/// A span enclosed by one pair of parentheses parses as its interior.
fn check_parentheses(tokens: &[Token], lo: usize, hi: usize) -> (r: Result<Option<KodyNode>, ParseError>)
    requires
        lo < hi <= tokens@.len(),
    ensures
        (tokens@[lo as int] is OpenParentheses && close_of(tokens@, lo + 1, hi as int, 0, false) == Some(hi - 1))
            ==> claim(1, tokens@, lo as int, hi as int, r),
        !(tokens@[lo as int] is OpenParentheses && close_of(tokens@, lo + 1, hi as int, 0, false) == Some(hi - 1))
            ==> r == Ok::<Option<KodyNode>, ParseError>(None),
    decreases hi - lo, 1nat,
{
    if !matches!(tokens[lo], Token::OpenParentheses) {
        return Ok(None);
    }
    match matching_close(tokens, lo, hi, false) {
        Some(j) => {
            if j + 1 == hi {
                Ok(Some(parse_span(tokens, lo + 1, hi - 1)?))
            } else {
                Ok(None)
            }
        },
        None => Ok(None),
    }
}

/// A span enclosed by one pair of curly brackets is a block of statements.
fn check_codeblock(tokens: &[Token], lo: usize, hi: usize) -> (r: Result<Option<KodyNode>, ParseError>)
    requires
        lo < hi <= tokens@.len(),
    ensures
        (tokens@[lo as int] is OpenCurlyBrackets && close_of(tokens@, lo + 1, hi as int, 0, true) == Some(hi - 1))
            ==> claim(2, tokens@, lo as int, hi as int, r),
        !(tokens@[lo as int] is OpenCurlyBrackets && close_of(tokens@, lo + 1, hi as int, 0, true) == Some(hi - 1))
            ==> r == Ok::<Option<KodyNode>, ParseError>(None),
    decreases hi - lo, 1nat,
{
    if !matches!(tokens[lo], Token::OpenCurlyBrackets) {
        return Ok(None);
    }
    match matching_close(tokens, lo, hi, true) {
        Some(j) => {
            if j + 1 == hi {
                Ok(Some(parse_block(tokens, lo + 1, hi - 1)?))
            } else {
                Ok(None)
            }
        },
        None => Ok(None),
    }
}

/// The nodes that the spans parse to, in order; the first error stops.
fn parse_spans(tokens: &[Token], spans: &Vec<(usize, usize)>, a: usize, b: usize) -> (r: Result<Vec<KodyNode>, ParseError>)
    requires
        a <= b <= tokens@.len(),
        forall|k: int| 0 <= k < spans@.len() ==> a <= (#[trigger] spans@[k]).0 <= spans@[k].1 <= b,
    ensures
        r matches Ok(nodes) ==> spans_error(tokens@, crate::syntax_tree::spans_as_int(spans@), 0, a as int, b as int) is None
            && spans_parse(tokens@, crate::syntax_tree::spans_as_int(spans@), nodes@, 0, a as int, b as int),
        r matches Err(e) ==> spans_error(tokens@, crate::syntax_tree::spans_as_int(spans@), 0, a as int, b as int) == Some(e),
    decreases b - a, 3nat,
{
    let ghost sp = crate::syntax_tree::spans_as_int(spans@);
    let mut nodes: Vec<KodyNode> = Vec::new();
    let mut k: usize = 0;
    while k < spans.len()
        invariant
            a <= b <= tokens@.len(),
            forall|m: int| 0 <= m < spans@.len() ==> a <= (#[trigger] spans@[m]).0 <= spans@[m].1 <= b,
            sp == crate::syntax_tree::spans_as_int(spans@),
            k <= spans@.len(),
            nodes@.len() == k,
            spans_error(tokens@, sp, 0, a as int, b as int) == spans_error(tokens@, sp, k as int, a as int, b as int),
            forall|m: int| 0 <= m < k ==> parses(tokens@, sp[m].0, sp[m].1, #[trigger] nodes@[m]),
        decreases spans@.len() - k,
    {
        let (x, y) = spans[k];
        assert(sp[k as int] == (x as int, y as int));
        let n = match parse_span(tokens, x, y) {
            Ok(n) => n,
            Err(e) => {
                return Err(e);
            },
        };
        nodes.push(n);
        k = k + 1;
    }
    proof {
        lemma_spans_parse(tokens@, sp, nodes@, 0, a as int, b as int);
    }
    Ok(nodes)
}

proof fn lemma_spans_parse(s: Seq<Token>, sp: Seq<(int, int)>, nodes: Seq<KodyNode>, k: int, a: int, b: int)
    requires
        0 <= k <= sp.len(),
        nodes.len() == sp.len(),
        forall|m: int| 0 <= m < sp.len() ==> a <= (#[trigger] sp[m]).0 <= sp[m].1 <= b,
        forall|m: int| 0 <= m < sp.len() ==> parses(s, sp[m].0, sp[m].1, #[trigger] nodes[m]),
    ensures
        spans_parse(s, sp, nodes, k, a, b),
    decreases sp.len() - k,
{
    if k < sp.len() {
        lemma_spans_parse(s, sp, nodes, k + 1, a, b);
    }
}

/// The statements of `tokens[lo..hi]`, as a block.
pub fn parse_block(tokens: &[Token], lo: usize, hi: usize) -> (r: Result<KodyNode, ParseError>)
    requires
        lo <= hi <= tokens@.len(),
    ensures
        r matches Ok(n) ==> block_error(tokens@, lo as int, hi as int) is None && (n matches KodyNode::CodeBlock { statements }
            && block_parses(tokens@, lo as int, hi as int, statements@)),
        r matches Err(e) ==> block_error(tokens@, lo as int, hi as int) == Some(e),
    decreases hi - lo, 4nat,
{
    let spans = identify_expressions(tokens, lo, hi)?;
    proof {
        assert forall|k: int| 0 <= k < spans@.len() implies lo <= (#[trigger] spans@[k]).0 <= spans@[k].1 <= hi by {
            lemma_spans_within(spans@, lo as int, hi as int, k);
        }
    }
    let statements = parse_spans(tokens, &spans, lo, hi)?;
    Ok(KodyNode::CodeBlock { statements })
}

proof fn lemma_spans_within(spans: Seq<(usize, usize)>, lo: int, hi: int, k: int)
    requires
        0 <= k < spans.len(),
        spans[0].0 == lo,
        spans.last().1 == hi,
        forall|m: int| 0 <= m < spans.len() ==> #[trigger] spans[m].0 < spans[m].1,
        forall|m: int| 0 <= m < spans.len() - 1 ==> #[trigger] spans[m].1 == spans[m + 1].0,
    ensures
        lo <= spans[k].0 < spans[k].1 <= hi,
    decreases spans.len() - k,
{
    if k < spans.len() - 1 {
        lemma_spans_within(spans, lo, hi, k + 1);
        assert(spans[k].1 == spans[k + 1].0);
    }
    lemma_spans_start(spans, lo, k);
}

proof fn lemma_spans_start(spans: Seq<(usize, usize)>, lo: int, k: int)
    requires
        0 <= k < spans.len(),
        spans[0].0 == lo,
        forall|m: int| 0 <= m < spans.len() ==> #[trigger] spans[m].0 < spans[m].1,
        forall|m: int| 0 <= m < spans.len() - 1 ==> #[trigger] spans[m].1 == spans[m + 1].0,
    ensures
        lo <= spans[k].0,
    decreases k,
{
    if k > 0 {
        lemma_spans_start(spans, lo, k - 1);
        assert(spans[k - 1].1 == spans[k].0);
    }
}

/// `return` with the value that follows, or the empty value.
fn check_return(tokens: &[Token], lo: usize, hi: usize) -> (r: Result<Option<KodyNode>, ParseError>)
    requires
        lo < hi <= tokens@.len(),
    ensures
        !(tokens@[lo as int] is Return) ==> r == Ok::<Option<KodyNode>, ParseError>(None),
        tokens@[lo as int] is Return ==> claim(3, tokens@, lo as int, hi as int, r),
    decreases hi - lo, 1nat,
{
    if !matches!(tokens[lo], Token::Return) {
        return Ok(None);
    }
    let return_value = if hi - lo == 1 {
        KodyNode::GetConstant { value: KodyObject::new() }
    } else {
        parse_span(tokens, lo + 1, hi)?
    };
    Ok(Some(KodyNode::ReturnFromFunction { return_value: Box::new(return_value) }))
}

/// `if` condition, action and an optional `else` action.
fn check_if_expression(tokens: &[Token], lo: usize, hi: usize) -> (r: Result<Option<KodyNode>, ParseError>)
    requires
        lo < hi <= tokens@.len(),
    ensures
        !(tokens@[lo as int] is If) ==> r == Ok::<Option<KodyNode>, ParseError>(None),
        tokens@[lo as int] is If ==> claim(4, tokens@, lo as int, hi as int, r),
    decreases hi - lo, 1nat,
{
    if !matches!(tokens[lo], Token::If) {
        return Ok(None);
    }
    if hi - lo == 1 {
        return Err(ParseError::ExpectedTokensAfterIf);
    }
    let condition_end = get_next_expression(tokens, lo + 1, hi)?;
    if condition_end == hi {
        return Err(ParseError::ExpectedTokensAfterCondition);
    }
    let action_end = get_next_expression(tokens, condition_end, hi)?;
    let else_action = if action_end < hi && matches!(tokens[action_end], Token::Else) {
        if hi - action_end < 2 {
            return Err(ParseError::ExpectedTokensAfterElse);
        }
        Some(Box::new(parse_span(tokens, action_end + 1, hi)?))
    } else {
        None
    };
    let condition = parse_span(tokens, lo + 1, condition_end)?;
    let action = parse_span(tokens, condition_end, action_end)?;
    Ok(Some(KodyNode::IfStatement { condition: Box::new(condition), action: Box::new(action), else_action }))
}

/// `while` condition and action.
fn check_while_expression(tokens: &[Token], lo: usize, hi: usize) -> (r: Result<Option<KodyNode>, ParseError>)
    requires
        lo < hi <= tokens@.len(),
    ensures
        !(tokens@[lo as int] is While) ==> r == Ok::<Option<KodyNode>, ParseError>(None),
        tokens@[lo as int] is While ==> claim(5, tokens@, lo as int, hi as int, r),
    decreases hi - lo, 1nat,
{
    if !matches!(tokens[lo], Token::While) {
        return Ok(None);
    }
    if hi - lo == 1 {
        return Err(ParseError::ExpectedTokensAfterWhile);
    }
    let condition_end = get_next_expression(tokens, lo + 1, hi)?;
    if condition_end == hi {
        return Err(ParseError::ExpectedTokensAfterCondition);
    }
    let action_end = get_next_expression(tokens, condition_end, hi)?;
    let condition = parse_span(tokens, lo + 1, condition_end)?;
    let action = parse_span(tokens, condition_end, action_end)?;
    Ok(Some(KodyNode::WhileStatement { condition: Box::new(condition), action: Box::new(action) }))
}

/// A leading `-` negates the rest of the span.
fn check_negation(tokens: &[Token], lo: usize, hi: usize) -> (r: Result<Option<KodyNode>, ParseError>)
    requires
        lo < hi <= tokens@.len(),
    ensures
        !(tokens@[lo as int] is Subtract) ==> r == Ok::<Option<KodyNode>, ParseError>(None),
        tokens@[lo as int] is Subtract ==> claim(6, tokens@, lo as int, hi as int, r),
    decreases hi - lo, 1nat,
{
    if !matches!(tokens[lo], Token::Subtract) {
        return Ok(None);
    }
    let operand = parse_span(tokens, lo + 1, hi)?;
    let ghost operand_view = operand;
    let mut arguments: Vec<KodyNode> = Vec::new();
    arguments.push(operand);
    assert(arguments@[0] == operand_view);
    Ok(Some(call_node(owned("__negate"), arguments)))
}

/// The first top-level assignment: the left side must be one identifier;
/// `+=`, `-=`, `*=` and `/=` assign the operation on the variable's value.
fn check_assignment(tokens: &[Token], lo: usize, hi: usize) -> (r: Result<Option<KodyNode>, ParseError>)
    requires
        lo < hi <= tokens@.len(),
    ensures
        !has_qualifying(OperatorClass::Assignment, tokens@, lo as int, hi as int) ==> r == Ok::<
            Option<KodyNode>,
            ParseError,
        >(None),
        has_qualifying(OperatorClass::Assignment, tokens@, lo as int, hi as int) ==> claim(8, tokens@, lo as int, hi as int, r),
    decreases hi - lo, 1nat,
{
    let i = match first_operator(tokens, lo, hi, OperatorClass::Assignment) {
        Some(i) => i,
        None => {
            return Ok(None);
        },
    };
    proof {
        lemma_first_op(OperatorClass::Assignment, tokens@, lo as int, hi as int, i as int);
    }
    if i + 1 == hi {
        return Err(ParseError::NoValueAfterAssignment);
    }
    if i != lo + 1 {
        return Err(ParseError::AssignmentToNonIdentifier);
    }
    let name = match &tokens[lo] {
        Token::Identifier(name) => name.clone(),
        _ => {
            return Err(ParseError::AssignmentToNonIdentifier);
        },
    };
    let value = parse_span(tokens, i + 1, hi)?;
    if matches!(tokens[i], Token::Assign) {
        return Ok(Some(KodyNode::SetVariable { name, value: Box::new(value) }));
    }
    let ghost vv = value;
    let mut arguments: Vec<KodyNode> = Vec::new();
    arguments.push(KodyNode::GetVariable { name: name.clone() });
    arguments.push(value);
    assert(arguments@[0] matches KodyNode::GetVariable { name: v } && v@ == name@);
    assert(arguments@[1] == vv);
    let call = call_node(operator_name_of(&tokens[i]), arguments);
    Ok(Some(KodyNode::SetVariable { name, value: Box::new(call) }))
}

/// The first top-level binary operator of class `c` splits the span into the
/// two arguments of a call to its native function.
fn check_binary(tokens: &[Token], lo: usize, hi: usize, c: OperatorClass) -> (r: Result<Option<KodyNode>, ParseError>)
    requires
        lo < hi <= tokens@.len(),
        c != OperatorClass::Assignment && c != OperatorClass::Not,
    ensures
        !has_qualifying(c, tokens@, lo as int, hi as int) ==> r == Ok::<Option<KodyNode>, ParseError>(None),
        has_qualifying(c, tokens@, lo as int, hi as int) ==> claim(class_rule(c), tokens@, lo as int, hi as int, r),
    decreases hi - lo, 1nat,
{
    let i = match first_operator(tokens, lo, hi, c) {
        Some(i) => i,
        None => {
            return Ok(None);
        },
    };
    proof {
        lemma_first_op(c, tokens@, lo as int, hi as int, i as int);
        assert(binary_class(class_rule(c)) == c);
    }
    if matches!(c, OperatorClass::Additive) && i + 1 < hi && matches!(tokens[i + 1], Token::Add | Token::Subtract) {
        return Err(ParseError::ConsecutiveAdditiveOperators);
    }
    let left = parse_span(tokens, lo, i)?;
    let right = parse_span(tokens, i + 1, hi)?;
    let ghost (lv, rv) = (left, right);
    let mut arguments: Vec<KodyNode> = Vec::new();
    arguments.push(left);
    arguments.push(right);
    assert(arguments@[0] == lv && arguments@[1] == rv);
    Ok(Some(call_node(operator_name_of(&tokens[i]), arguments)))
}

/// The first top-level `not` applies to what follows it.
fn check_not_operator(tokens: &[Token], lo: usize, hi: usize) -> (r: Result<Option<KodyNode>, ParseError>)
    requires
        lo < hi <= tokens@.len(),
    ensures
        !has_qualifying(OperatorClass::Not, tokens@, lo as int, hi as int) ==> r == Ok::<Option<KodyNode>, ParseError>(None),
        has_qualifying(OperatorClass::Not, tokens@, lo as int, hi as int) ==> claim(14, tokens@, lo as int, hi as int, r),
    decreases hi - lo, 1nat,
{
    let i = match first_operator(tokens, lo, hi, OperatorClass::Not) {
        Some(i) => i,
        None => {
            return Ok(None);
        },
    };
    proof {
        lemma_first_op(OperatorClass::Not, tokens@, lo as int, hi as int, i as int);
    }
    let operand = parse_span(tokens, i + 1, hi)?;
    let ghost operand_view = operand;
    let mut arguments: Vec<KodyNode> = Vec::new();
    arguments.push(operand);
    assert(arguments@[0] == operand_view);
    Ok(Some(call_node(owned("__not"), arguments)))
}

/// The rule that the trailing tokens of a span select, once no operator did.
pub open spec fn trailing_rule(s: Seq<Token>, lo: int, hi: int) -> nat {
    if s[hi - 1] is CloseParentheses {
        15
    } else if hi - lo >= 3 && s[hi - 2] is MemberAccess && s[hi - 1] is Identifier {
        16
    } else {
        17
    }
}

/// A trailing argument list in parentheses calls what stands before it; a
/// trailing `.name` reads a member. Anything else is malformed.
fn check_function_call_and_member_access(tokens: &[Token], lo: usize, hi: usize) -> (r: Result<KodyNode, ParseError>)
    requires
        lo < hi <= tokens@.len(),
    ensures
        outcome(trailing_rule(tokens@, lo as int, hi as int), tokens@, lo as int, hi as int, r),
    decreases hi - lo, 1nat,
{
    if matches!(tokens[hi - 1], Token::CloseParentheses) {
        let open = match find_call_open(tokens, lo, hi) {
            Some(o) => o,
            None => {
                return Err(ParseError::UnmatchedParentheses);
            },
        };
        if open == lo {
            return Err(ParseError::MalformedExpression);
        }
        let function = parse_span(tokens, lo, open)?;
        let args_lo = open + 1;
        let args_hi = hi - 1;
        let arguments = if args_lo < args_hi {
            let spans = argument_spans(tokens, args_lo, args_hi);
            proof {
                lemma_arg_spans_within(tokens@, args_lo as int, args_hi as int, args_lo as int, 0);
                assert forall|k: int| 0 <= k < spans@.len() implies args_lo <= (#[trigger] spans@[k]).0 <= spans@[k].1 <= args_hi by {
                    assert(crate::syntax_tree::spans_as_int(spans@)[k] == (spans@[k].0 as int, spans@[k].1 as int));
                }
            }
            parse_spans(tokens, &spans, args_lo, args_hi)?
        } else {
            Vec::new()
        };
        return Ok(KodyNode::CallFunction { function: Box::new(function), arguments });
    }
    if hi - lo >= 3 && matches!(tokens[hi - 2], Token::MemberAccess) {
        if let Token::Identifier(member) = &tokens[hi - 1] {
            let base = parse_span(tokens, lo, hi - 2)?;
            return Ok(KodyNode::GetMember { base_object: Box::new(base), member_name: member.clone() });
        }
    }
    Err(ParseError::MalformedExpression)
}

/// Parses one expression or statement, as `parse_error` and `parses` say.
pub fn parse_expression_tokens(tokens: &[Token]) -> (r: Result<KodyNode, ParseError>)
    ensures
        parsed(tokens@, 0, tokens@.len() as int, r),
{
    parse_span(tokens, 0, tokens.len())
}

} // verus!
