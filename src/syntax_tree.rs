use vstd::prelude::*;
use crate::objects::KodyObject;
use crate::expression_parser::{block_error, block_parses, parse_block, parse_error, parse_span, parses};
use crate::tokenizer::Token;

verus! {

/// A node of the syntax tree; each node owns its children.
#[derive(Debug, PartialEq)]
pub enum KodyNode {
    WhileStatement { condition: Box<KodyNode>, action: Box<KodyNode> },
    IfStatement {
        condition: Box<KodyNode>,
        action: Box<KodyNode>,
        else_action: Option<Box<KodyNode>>,
    },
    CodeBlock { statements: Vec<KodyNode> },
    ReturnFromFunction { return_value: Box<KodyNode> },
    GetConstant { value: KodyObject },
    SetVariable { name: String, value: Box<KodyNode> },
    CallFunction { function: Box<KodyNode>, arguments: Vec<KodyNode> },
    GetMember { base_object: Box<KodyNode>, member_name: String },
    GetVariable { name: String },
}

/// A user function: its name, parameter names and body.
#[derive(Debug, PartialEq)]
pub struct KodyFunctionData {
    pub name: String,
    pub arguments: Vec<String>,
    pub body: KodyNode,
}

/// A parsed program: the hoisted function definitions and the main body.
#[derive(Debug, PartialEq)]
pub struct KodySyntaxTree {
    pub functions: Vec<KodyFunctionData>,
    pub main: KodyNode,
}

/// Why a token sequence could not be parsed.
#[derive(Clone, Copy, Debug, PartialEq, Eq)]
pub enum ParseError {
    ExpectedFunctionName,
    ExpectedParenthesesAfterFunctionName,
    UnclosedFunctionArguments,
    UnexpectedTokenInArguments,
    ExpectedTokensAfterIf,
    ExpectedTokensAfterCondition,
    ExpectedTokensAfterElse,
    ExpectedTokensAfterWhile,
    UnclosedBlock,
    UnexpectedElse,
    UnexpectedReturn,
    UnfinishedExpressionBeforeFunction,
    NoValueAfterAssignment,
    AssignmentToNonIdentifier,
    ConsecutiveAdditiveOperators,
    UnmatchedParentheses,
    EmptyProgram,
    EmptyExpression,
    MissingFunctionBody,
    MalformedExpression,
}

/// A token that can end an expression.
pub open spec fn ends_expression(t: Token) -> bool {
    match t {
        Token::Identifier(_) | Token::Number(_) | Token::StringLiteral(_)
        | Token::CloseParentheses | Token::CloseCurlyBrackets | Token::True | Token::False => true,
        _ => false,
    }
}

/// A token that starts a new expression when it follows one that can end.
pub open spec fn starts_expression(t: Token) -> bool {
    match t {
        Token::Identifier(_) | Token::Number(_) | Token::StringLiteral(_)
        | Token::OpenCurlyBrackets | Token::If | Token::While | Token::Else | Token::True
        | Token::False | Token::Return | Token::FunctionDef => true,
        _ => false,
    }
}

pub fn ends_expression_exec(t: &Token) -> (r: bool)
    ensures
        r == ends_expression(*t),
{
    match t {
        Token::Identifier(_) | Token::Number(_) | Token::StringLiteral(_)
        | Token::CloseParentheses | Token::CloseCurlyBrackets | Token::True | Token::False => true,
        _ => false,
    }
}

pub fn starts_expression_exec(t: &Token) -> (r: bool)
    ensures
        r == starts_expression(*t),
{
    match t {
        Token::Identifier(_) | Token::Number(_) | Token::StringLiteral(_)
        | Token::OpenCurlyBrackets | Token::If | Token::While | Token::Else | Token::True
        | Token::False | Token::Return | Token::FunctionDef => true,
        _ => false,
    }
}

/// A segmentation result with the index as an integer.
pub open spec fn as_index(r: Result<usize, ParseError>) -> Result<int, ParseError> {
    match r {
        Ok(e) => Ok(e as int),
        Err(e) => Err(e),
    }
}

/// The index of the `}` that closes a block, scanning from `j` with `depth`
/// blocks opened since.
pub open spec fn curly_close(s: Seq<Token>, j: int, hi: int, depth: nat) -> Option<int>
    decreases hi - j,
{
    if j < 0 || j >= hi || j >= s.len() {
        None
    } else if s[j] is OpenCurlyBrackets {
        curly_close(s, j + 1, hi, depth + 1)
    } else if s[j] is CloseCurlyBrackets {
        if depth == 0 {
            Some(j)
        } else {
            curly_close(s, j + 1, hi, (depth - 1) as nat)
        }
    } else {
        curly_close(s, j + 1, hi, depth)
    }
}

/// Where the statement that starts at `lo` ends: right after a token that can
/// end an expression and is followed by one that starts a new one. `if` and
/// `while` constructs are measured whole; `{ }` blocks are skipped.
pub open spec fn next_end(s: Seq<Token>, lo: int, hi: int) -> Result<int, ParseError>
    decreases hi - lo, 2nat, 0nat,
{
    if !(0 <= lo < hi <= s.len()) {
        Ok(hi)
    } else if s[lo] is If {
        if_end(s, lo, hi)
    } else if s[lo] is While {
        while_end(s, lo, hi)
    } else if s[lo] is Return {
        if hi - lo == 1 {
            Ok(lo + 1)
        } else {
            scan_end(s, lo, hi, lo + 1)
        }
    } else {
        scan_end(s, lo, hi, lo)
    }
}

/// The scan of `next_end`, at index `i` of the statement that starts at `lo`.
pub open spec fn scan_end(s: Seq<Token>, lo: int, hi: int, i: int) -> Result<int, ParseError>
    decreases hi - lo, 1nat, hi - i,
{
    if !(0 <= lo <= i < hi <= s.len()) {
        Ok(hi)
    } else if ends_expression(s[i]) {
        if i + 1 < hi && starts_expression(s[i + 1]) {
            Ok(i + 1)
        } else {
            scan_end(s, lo, hi, i + 1)
        }
    } else if s[i] is FunctionDef {
        Err(ParseError::UnfinishedExpressionBeforeFunction)
    } else if s[i] is Else {
        Err(ParseError::UnexpectedElse)
    } else if s[i] is Return {
        Err(ParseError::UnexpectedReturn)
    } else if s[i] is If || s[i] is While {
        if i > lo {
            match next_end(s, i, hi) {
                Err(e) => Err(e),
                Ok(end) => if end <= hi {
                    scan_end(s, lo, hi, if end - 1 > i { end - 1 } else { i + 1 })
                } else {
                    Ok(hi)
                },
            }
        } else {
            Ok(hi)
        }
    } else if s[i] is OpenCurlyBrackets {
        match curly_close(s, i + 1, hi, 0) {
            None => Err(ParseError::UnclosedBlock),
            Some(j) => if i < j < hi {
                scan_end(s, lo, hi, j)
            } else {
                Ok(hi)
            },
        }
    } else {
        scan_end(s, lo, hi, i + 1)
    }
}

/// The end of an `if` construct at `lo`: condition, action, and an optional
/// `else` with its action.
pub open spec fn if_end(s: Seq<Token>, lo: int, hi: int) -> Result<int, ParseError>
    decreases hi - lo, 1nat, 0nat,
{
    if !(0 <= lo < hi <= s.len()) {
        Ok(hi)
    } else if hi - lo == 1 {
        Err(ParseError::ExpectedTokensAfterIf)
    } else {
        match next_end(s, lo + 1, hi) {
            Err(e) => Err(e),
            Ok(c) => if c == hi {
                Err(ParseError::ExpectedTokensAfterCondition)
            } else if !(lo < c < hi) {
                Ok(hi)
            } else {
                match next_end(s, c, hi) {
                    Err(e) => Err(e),
                    Ok(a) => if a < hi && s[a] is Else {
                        if hi - a < 2 {
                            Err(ParseError::ExpectedTokensAfterElse)
                        } else if !(lo < a) {
                            Ok(hi)
                        } else {
                            next_end(s, a + 1, hi)
                        }
                    } else {
                        Ok(a)
                    },
                }
            },
        }
    }
}

/// The end of a `while` construct at `lo`: condition and action.
pub open spec fn while_end(s: Seq<Token>, lo: int, hi: int) -> Result<int, ParseError>
    decreases hi - lo, 1nat, 0nat,
{
    if !(0 <= lo < hi <= s.len()) {
        Ok(hi)
    } else if hi - lo == 1 {
        Err(ParseError::ExpectedTokensAfterWhile)
    } else {
        match next_end(s, lo + 1, hi) {
            Err(e) => Err(e),
            Ok(c) => if c == hi {
                Err(ParseError::ExpectedTokensAfterCondition)
            } else if !(lo < c < hi) {
                Ok(hi)
            } else {
                next_end(s, c, hi)
            },
        }
    }
}

/// The index of the `}` that closes the block opened right before `j`.
fn find_curly_close(tokens: &[Token], j: usize, hi: usize) -> (r: Option<usize>)
    requires
        0 < j <= hi <= tokens@.len(),
    ensures
        r matches Some(k) ==> j <= k < hi,
        r matches Some(k) ==> curly_close(tokens@, j as int, hi as int, 0) == Some(k as int),
        r is None ==> curly_close(tokens@, j as int, hi as int, 0) is None,
{
    let mut depth: usize = 0;
    let mut k = j;
    while k < hi
        invariant
            j <= k <= hi,
            hi <= tokens@.len(),
            depth <= k - j,
            curly_close(tokens@, k as int, hi as int, depth as nat) == curly_close(tokens@, j as int, hi as int, 0),
        decreases hi - k,
    {
        if matches!(tokens[k], Token::OpenCurlyBrackets) {
            depth = depth + 1;
        } else if matches!(tokens[k], Token::CloseCurlyBrackets) {
            if depth == 0 {
                return Some(k);
            }
            depth = depth - 1;
        }
        k = k + 1;
    }
    None
}

/// The end of the statement that starts at `lo`, as `next_end` says.
pub fn get_next_expression(tokens: &[Token], lo: usize, hi: usize) -> (r: Result<usize, ParseError>)
    requires
        lo < hi <= tokens@.len(),
    ensures
        r matches Ok(end) ==> lo < end <= hi,
        as_index(r) == next_end(tokens@, lo as int, hi as int),
    decreases hi - lo, 1nat,
{
    if matches!(tokens[lo], Token::If) {
        return get_if_expression_tokens(tokens, lo, hi);
    }
    if matches!(tokens[lo], Token::While) {
        return get_while_expression_tokens(tokens, lo, hi);
    }
    let mut i = lo;
    if matches!(tokens[lo], Token::Return) {
        if hi - lo == 1 {
            return Ok(lo + 1);
        }
        i = lo + 1;
    }
    let ghost target = next_end(tokens@, lo as int, hi as int);
    while i < hi
        invariant
            lo <= i <= hi,
            hi <= tokens@.len(),
            !(tokens@[lo as int] is If) && !(tokens@[lo as int] is While),
            target == next_end(tokens@, lo as int, hi as int),
            scan_end(tokens@, lo as int, hi as int, i as int) == target,
            i == lo ==> !(tokens@[lo as int] is Return),
        decreases hi - i,
    {
        let t = &tokens[i];
        if ends_expression_exec(t) {
            if i + 1 < hi && starts_expression_exec(&tokens[i + 1]) {
                return Ok(i + 1);
            }
            i = i + 1;
        } else if matches!(t, Token::FunctionDef) {
            return Err(ParseError::UnfinishedExpressionBeforeFunction);
        } else if matches!(t, Token::Else) {
            return Err(ParseError::UnexpectedElse);
        } else if matches!(t, Token::Return) {
            return Err(ParseError::UnexpectedReturn);
        } else if matches!(t, Token::If) || matches!(t, Token::While) {
            let end = get_next_expression(tokens, i, hi)?;
            // go on from the last token of the nested construct
            i = if end - 1 > i { end - 1 } else { i + 1 };
        } else if matches!(t, Token::OpenCurlyBrackets) {
            match find_curly_close(tokens, i + 1, hi) {
                None => {
                    return Err(ParseError::UnclosedBlock);
                },
                Some(j) => {
                    i = j;
                },
            }
        } else {
            i = i + 1;
        }
    }
    Ok(hi)
}

/// The end of the `if` construct at `lo`, as `if_end` says.
pub fn get_if_expression_tokens(tokens: &[Token], lo: usize, hi: usize) -> (r: Result<usize, ParseError>)
    requires
        lo < hi <= tokens@.len(),
    ensures
        r matches Ok(end) ==> lo < end <= hi,
        as_index(r) == if_end(tokens@, lo as int, hi as int),
    decreases hi - lo, 0nat,
{
    if hi - lo == 1 {
        return Err(ParseError::ExpectedTokensAfterIf);
    }
    let condition_end = get_next_expression(tokens, lo + 1, hi)?;
    if condition_end == hi {
        return Err(ParseError::ExpectedTokensAfterCondition);
    }
    let action_end = get_next_expression(tokens, condition_end, hi)?;
    if action_end < hi && matches!(tokens[action_end], Token::Else) {
        if hi - action_end < 2 {
            return Err(ParseError::ExpectedTokensAfterElse);
        }
        let else_end = get_next_expression(tokens, action_end + 1, hi)?;
        return Ok(else_end);
    }
    Ok(action_end)
}

/// The end of the `while` construct at `lo`, as `while_end` says.
pub fn get_while_expression_tokens(tokens: &[Token], lo: usize, hi: usize) -> (r: Result<usize, ParseError>)
    requires
        lo < hi <= tokens@.len(),
    ensures
        r matches Ok(end) ==> lo < end <= hi,
        as_index(r) == while_end(tokens@, lo as int, hi as int),
    decreases hi - lo, 0nat,
{
    if hi - lo == 1 {
        return Err(ParseError::ExpectedTokensAfterWhile);
    }
    let condition_end = get_next_expression(tokens, lo + 1, hi)?;
    if condition_end == hi {
        return Err(ParseError::ExpectedTokensAfterCondition);
    }
    let action_end = get_next_expression(tokens, condition_end, hi)?;
    Ok(action_end)
}

/// The statements of `s[lo..hi]`: one after the other, each ending where
/// `next_end` says.
pub open spec fn segments(s: Seq<Token>, lo: int, hi: int) -> Result<Seq<(int, int)>, ParseError>
    decreases hi - lo,
{
    if lo >= hi {
        Ok(Seq::empty())
    } else {
        match next_end(s, lo, hi) {
            Err(e) => Err(e),
            Ok(e) => if lo < e <= hi {
                match segments(s, e, hi) {
                    Ok(rest) => Ok(seq![(lo, e)] + rest),
                    Err(err) => Err(err),
                }
            } else {
                Ok(Seq::empty())
            },
        }
    }
}

pub open spec fn spans_as_int(spans: Seq<(usize, usize)>) -> Seq<(int, int)> {
    spans.map_values(|p: (usize, usize)| (p.0 as int, p.1 as int))
}

/// Splits `tokens[lo..hi]` into consecutive statements that cover it, as
/// `segments` says.
pub fn identify_expressions(tokens: &[Token], lo: usize, hi: usize) -> (r: Result<Vec<(usize, usize)>, ParseError>)
    requires
        lo <= hi <= tokens@.len(),
    ensures
        r matches Ok(spans) ==> {
            &&& (lo == hi <==> spans@.len() == 0)
            &&& spans@.len() > 0 ==> spans@[0].0 == lo && spans@.last().1 == hi
            &&& forall|k: int| 0 <= k < spans@.len() ==> #[trigger] spans@[k].0 < spans@[k].1
            &&& forall|k: int| 0 <= k < spans@.len() - 1 ==> #[trigger] spans@[k].1 == spans@[k + 1].0
            &&& segments(tokens@, lo as int, hi as int) == Ok::<Seq<(int, int)>, ParseError>(spans_as_int(spans@))
        },
        r matches Err(e) ==> segments(tokens@, lo as int, hi as int) == Err::<Seq<(int, int)>, ParseError>(e),
{
    let mut spans: Vec<(usize, usize)> = Vec::new();
    let mut start = lo;
    while start < hi
        invariant
            lo <= start <= hi,
            hi <= tokens@.len(),
            spans@.len() == 0 <==> start == lo,
            spans@.len() > 0 ==> spans@[0].0 == lo && spans@.last().1 == start,
            forall|k: int| 0 <= k < spans@.len() ==> #[trigger] spans@[k].0 < spans@[k].1,
            forall|k: int| 0 <= k < spans@.len() - 1 ==> #[trigger] spans@[k].1 == spans@[k + 1].0,
            segments(tokens@, lo as int, hi as int) == match segments(tokens@, start as int, hi as int) {
                Ok(rest) => Ok(spans_as_int(spans@) + rest),
                Err(e) => Err(e),
            },
        decreases hi - start,
    {
        let end = get_next_expression(tokens, start, hi)?;
        proof {
            match segments(tokens@, end as int, hi as int) {
                Ok(rest) => {
                    assert(spans_as_int(spans@.push((start, end))) + rest =~= spans_as_int(spans@) + (seq![(start as int, end as int)] + rest));
                },
                Err(_) => {},
            }
        }
        spans.push((start, end));
        start = end;
    }
    proof {
        assert(spans_as_int(spans@) + Seq::<(int, int)>::empty() =~= spans_as_int(spans@));
    }
    Ok(spans)
}

/// `tokens` without `tokens[a..b]`.
fn without_span(tokens: &Vec<Token>, a: usize, b: usize) -> (r: Vec<Token>)
    requires
        a <= b <= tokens@.len(),
    ensures
        r@ == tokens@.subrange(0, a as int) + tokens@.subrange(b as int, tokens@.len() as int),
{
    let mut out: Vec<Token> = Vec::new();
    let mut i: usize = 0;
    while i < a
        invariant
            i <= a <= b <= tokens@.len(),
            out@ == tokens@.subrange(0, i as int),
        decreases a - i,
    {
        out.push(tokens[i].duplicate());
        i = i + 1;
        assert(out@ =~= tokens@.subrange(0, i as int));
    }
    let mut j = b;
    while j < tokens.len()
        invariant
            a <= b <= j <= tokens@.len(),
            out@ == tokens@.subrange(0, a as int) + tokens@.subrange(b as int, j as int),
        decreases tokens@.len() - j,
    {
        out.push(tokens[j].duplicate());
        j = j + 1;
        assert(out@ =~= tokens@.subrange(0, a as int) + tokens@.subrange(b as int, j as int));
    }
    out
}

/// The index of the `)` that closes a parameter list starting at `pos`
/// (right after the `(`): identifiers separated by commas.
pub open spec fn params_first(s: Seq<Token>, pos: int) -> Result<int, ParseError> {
    if pos < 0 || pos >= s.len() {
        Err(ParseError::UnclosedFunctionArguments)
    } else if s[pos] is CloseParentheses {
        Ok(pos)
    } else {
        params_rest(s, pos)
    }
}

pub open spec fn params_rest(s: Seq<Token>, pos: int) -> Result<int, ParseError>
    decreases s.len() - pos,
{
    if pos < 0 || pos >= s.len() {
        Err(ParseError::UnclosedFunctionArguments)
    } else if !(s[pos] is Identifier) {
        Err(ParseError::UnexpectedTokenInArguments)
    } else if pos + 1 >= s.len() {
        Err(ParseError::UnclosedFunctionArguments)
    } else if s[pos + 1] is CloseParentheses {
        Ok(pos + 1)
    } else if !(s[pos + 1] is Separator) {
        Err(ParseError::UnexpectedTokenInArguments)
    } else if pos + 2 >= s.len() {
        Err(ParseError::UnclosedFunctionArguments)
    } else {
        params_rest(s, pos + 2)
    }
}

/// The parameter names of a list from `pos` up to the `)` at `close`.
pub open spec fn param_names(s: Seq<Token>, pos: int, close: int) -> Seq<Seq<char>>
    decreases close - pos,
{
    if pos >= close {
        Seq::empty()
    } else {
        seq![s[pos]->Identifier_0@] + if pos + 2 <= close {
            param_names(s, pos + 2, close)
        } else {
            Seq::empty()
        }
    }
}

/// The `)` of the parameter list and the end of the body of the function
/// whose `func` keyword stands at `f`.
pub open spec fn function_end(s: Seq<Token>, f: int) -> Result<(int, int), ParseError> {
    if f + 1 >= s.len() || !(s[f + 1] is Identifier) {
        Err(ParseError::ExpectedFunctionName)
    } else if f + 2 >= s.len() || !(s[f + 2] is OpenParentheses) {
        Err(ParseError::ExpectedParenthesesAfterFunctionName)
    } else {
        match params_first(s, f + 3) {
            Err(e) => Err(e),
            Ok(close) => if close + 1 >= s.len() {
                Err(ParseError::MissingFunctionBody)
            } else {
                match next_end(s, close + 1, s.len() as int) {
                    Err(e) => Err(e),
                    Ok(end) => Ok((close, end)),
                }
            },
        }
    }
}

/// The error of reading the function definition at `f`, if any.
pub open spec fn function_error(s: Seq<Token>, f: int) -> Option<ParseError> {
    match function_end(s, f) {
        Err(e) => Some(e),
        Ok((close, end)) => parse_error(s, close + 1, end),
    }
}

/// `data` is the function defined at `f`.
pub open spec fn function_parses(s: Seq<Token>, f: int, data: KodyFunctionData) -> bool {
    match function_end(s, f) {
        Err(_) => false,
        Ok((close, end)) => {
            &&& data.name@ == s[f + 1]->Identifier_0@
            &&& data.arguments@.map_values(|a: String| a@) == param_names(s, f + 3, close)
            &&& parses(s, close + 1, end, data.body)
        },
    }
}

/// The index of the first `func` keyword at or after `i`.
pub open spec fn first_function(s: Seq<Token>, i: int) -> Option<int>
    decreases s.len() - i,
{
    if i < 0 || i >= s.len() {
        None
    } else if s[i] is FunctionDef {
        Some(i)
    } else {
        first_function(s, i + 1)
    }
}

/// The tokens that remain once every function definition is taken out, one
/// at a time from the front; `None` where a definition is malformed.
pub open spec fn hoist(s: Seq<Token>) -> Result<Seq<Token>, ParseError>
    decreases s.len(),
{
    match first_function(s, 0) {
        None => Ok(s),
        Some(f) => match function_end(s, f) {
            Err(e) => Err(e),
            Ok((close, end)) => match parse_error(s, close + 1, end) {
                Some(e) => Err(e),
                None => if 0 <= f < end <= s.len() {
                    hoist(s.subrange(0, f) + s.subrange(end, s.len() as int))
                } else {
                    Ok(s)
                },
            },
        },
    }
}

/// `fns` are the function definitions taken out by `hoist`, in order.
pub open spec fn hoisted_functions(s: Seq<Token>, fns: Seq<KodyFunctionData>) -> bool
    decreases s.len(),
{
    match first_function(s, 0) {
        None => fns.len() == 0,
        Some(f) => match function_end(s, f) {
            Err(_) => false,
            Ok((close, end)) => {
                &&& fns.len() > 0
                &&& function_parses(s, f, fns[0])
                &&& 0 <= f < end <= s.len()
                &&& hoisted_functions(s.subrange(0, f) + s.subrange(end, s.len() as int), fns.drop_first())
            },
        },
    }
}

/// The error of parsing a whole program, if any.
pub open spec fn program_error(s: Seq<Token>) -> Option<ParseError> {
    match hoist(s) {
        Err(e) => Some(e),
        Ok(rest) => if rest.len() == 0 {
            Some(ParseError::EmptyProgram)
        } else {
            block_error(rest, 0, rest.len() as int)
        },
    }
}

/// The index of the first `func` keyword, if any.
fn find_function_def(tokens: &Vec<Token>) -> (r: Option<usize>)
    ensures
        as_position(r) == first_function(tokens@, 0),
        r matches Some(f) ==> f < tokens@.len() && tokens@[f as int] is FunctionDef,
{
    let mut i: usize = 0;
    while i < tokens.len()
        invariant
            i <= tokens@.len(),
            first_function(tokens@, i as int) == first_function(tokens@, 0),
        decreases tokens@.len() - i,
    {
        if matches!(tokens[i], Token::FunctionDef) {
            return Some(i);
        }
        i = i + 1;
    }
    None
}

pub open spec fn as_position(r: Option<usize>) -> Option<int> {
    match r {
        Some(i) => Some(i as int),
        None => None,
    }
}

proof fn lemma_param_names_extend(s: Seq<Token>, a: int, b: int, c: int)
    requires
        a <= b,
        (b - a) % 2 == 0,
        c == b + 1 || c == b + 2,
    ensures
        param_names(s, a, c) == param_names(s, a, b).push(s[b]->Identifier_0@),
    decreases b - a,
{
    if a == b {
        assert(param_names(s, a + 2, c) == Seq::<Seq<char>>::empty() || a + 2 > c);
        assert(param_names(s, a, c) =~= seq![s[a]->Identifier_0@]);
        assert(param_names(s, a, b) =~= Seq::<Seq<char>>::empty());
    } else {
        lemma_param_names_extend(s, a + 2, b, c);
        assert(param_names(s, a, c) =~= seq![s[a]->Identifier_0@] + param_names(s, a + 2, c));
        assert(param_names(s, a, b) =~= seq![s[a]->Identifier_0@] + param_names(s, a + 2, b));
        assert(param_names(s, a, c) =~= param_names(s, a, b).push(s[b]->Identifier_0@));
    }
}

/// The parameter names of the list that starts at `first` (right after the
/// `(`), and the index of its `)`.
fn parse_parameters(tokens: &[Token], first: usize) -> (r: Result<(Vec<String>, usize), ParseError>)
    requires
        first <= tokens@.len(),
    ensures
        params_first(tokens@, first as int) matches Ok(close) ==> (r matches Ok((names, c)) && c == close
            && names@.map_values(|a: String| a@) == param_names(tokens@, first as int, close)),
        params_first(tokens@, first as int) matches Err(e) ==> r == Err::<(Vec<String>, usize), ParseError>(e),
        r matches Ok((_, c)) ==> first <= c < tokens@.len(),
{
    let len = tokens.len();
    let mut arguments: Vec<String> = Vec::new();
    if first >= len {
        return Err(ParseError::UnclosedFunctionArguments);
    }
    if matches!(tokens[first], Token::CloseParentheses) {
        assert(arguments@.map_values(|a: String| a@) =~= param_names(tokens@, first as int, first as int));
        return Ok((arguments, first));
    }
    let mut pos = first;
    loop
        invariant
            first <= pos < len,
            len == tokens@.len(),
            (pos - first) % 2 == 0,
            params_rest(tokens@, pos as int) == params_first(tokens@, first as int),
            arguments@.map_values(|a: String| a@) == param_names(tokens@, first as int, pos as int),
        decreases len - pos,
    {
        let ghost here = pos as int;
        let ghost names_before = arguments@;
        match &tokens[pos] {
            Token::Identifier(parameter) => arguments.push(parameter.clone()),
            _ => {
                return Err(ParseError::UnexpectedTokenInArguments);
            },
        }
        proof {
            lemma_param_names_extend(tokens@, first as int, here, here + 1);
            lemma_param_names_extend(tokens@, first as int, here, here + 2);
            assert(arguments@.map_values(|a: String| a@) =~= names_before.map_values(|a: String| a@).push(tokens@[here]->Identifier_0@));
        }
        if pos + 1 >= len {
            return Err(ParseError::UnclosedFunctionArguments);
        }
        if matches!(tokens[pos + 1], Token::CloseParentheses) {
            return Ok((arguments, pos + 1));
        }
        if !matches!(tokens[pos + 1], Token::Separator) {
            return Err(ParseError::UnexpectedTokenInArguments);
        }
        if pos + 2 >= len {
            return Err(ParseError::UnclosedFunctionArguments);
        }
        pos = pos + 2;
    }
}

/// Parses `func NAME(PARAM, ...) BODY` starting at the `func` keyword at `f`,
/// as `function_error` and `function_parses` say; returns the function and
/// the index right after its body.
pub fn parse_function_tokens(tokens: &[Token], f: usize) -> (r: Result<(KodyFunctionData, usize), ParseError>)
    requires
        f < tokens@.len(),
    ensures
        r matches Ok((data, end)) ==> f + 3 < end <= tokens@.len(),
        r matches Ok((data, end)) ==> function_error(tokens@, f as int) is None && function_parses(
            tokens@,
            f as int,
            data,
        ) && (function_end(tokens@, f as int) matches Ok((_, e)) && e == end),
        r matches Err(e) ==> function_error(tokens@, f as int) == Some(e),
{
    let len = tokens.len();
    let name = if f + 1 < len {
        match &tokens[f + 1] {
            Token::Identifier(id) => id.clone(),
            _ => {
                return Err(ParseError::ExpectedFunctionName);
            },
        }
    } else {
        return Err(ParseError::ExpectedFunctionName);
    };
    if f + 2 >= len || !matches!(tokens[f + 2], Token::OpenParentheses) {
        return Err(ParseError::ExpectedParenthesesAfterFunctionName);
    }
    let (arguments, pos) = parse_parameters(tokens, f + 3)?;
    let body_start = pos + 1;
    if body_start >= len {
        return Err(ParseError::MissingFunctionBody);
    }
    let body_end = get_next_expression(tokens, body_start, len)?;
    let body = parse_span(tokens, body_start, body_end)?;
    Ok((KodyFunctionData { name, arguments, body }, body_end))
}

/// Hoisting from `rest`, after the functions `fns` were taken out, gives
/// what hoisting from `s` gives.
#[verifier::opaque]
pub open spec fn same_hoisting(s: Seq<Token>, fns: Seq<KodyFunctionData>, rest: Seq<Token>) -> bool {
    &&& hoist(s) == hoist(rest)
    &&& forall|more: Seq<KodyFunctionData>| #[trigger] hoisted_functions(s, fns + more) == hoisted_functions(rest, more)
}

proof fn lemma_same_hoisting_start(s: Seq<Token>)
    ensures
        same_hoisting(s, Seq::empty(), s),
{
    reveal(same_hoisting);
    assert forall|more: Seq<KodyFunctionData>| #[trigger] hoisted_functions(s, Seq::empty() + more) == hoisted_functions(s, more) by {
        assert(Seq::<KodyFunctionData>::empty() + more =~= more);
    }
}

proof fn lemma_same_hoisting_step(s: Seq<Token>, fns: Seq<KodyFunctionData>, rest: Seq<Token>, data: KodyFunctionData, f: int, end: int)
    requires
        same_hoisting(s, fns, rest),
        first_function(rest, 0) == Some(f),
        function_end(rest, f) matches Ok((_, e)) && e == end,
        function_error(rest, f) is None,
        function_parses(rest, f, data),
        0 <= f < end <= rest.len(),
    ensures
        same_hoisting(s, fns.push(data), rest.subrange(0, f) + rest.subrange(end, rest.len() as int)),
{
    reveal(same_hoisting);
    let next = rest.subrange(0, f) + rest.subrange(end, rest.len() as int);
    assert(hoist(rest) == hoist(next));
    assert forall|more: Seq<KodyFunctionData>| #[trigger] hoisted_functions(s, fns.push(data) + more) == hoisted_functions(next, more) by {
        assert(fns.push(data) + more =~= fns + (seq![data] + more));
        assert((seq![data] + more)[0] == data);
        assert((seq![data] + more).drop_first() =~= more);
        assert(hoisted_functions(s, fns + (seq![data] + more)) == hoisted_functions(rest, seq![data] + more));
    }
}

proof fn lemma_same_hoisting_error(s: Seq<Token>, fns: Seq<KodyFunctionData>, rest: Seq<Token>, f: int, e: ParseError)
    requires
        same_hoisting(s, fns, rest),
        first_function(rest, 0) == Some(f),
        function_error(rest, f) == Some(e),
    ensures
        program_error(s) == Some(e),
{
    reveal(same_hoisting);
    assert(hoist(rest) == Err::<Seq<Token>, ParseError>(e));
}

proof fn lemma_same_hoisting_end(s: Seq<Token>, fns: Seq<KodyFunctionData>, rest: Seq<Token>)
    requires
        same_hoisting(s, fns, rest),
        first_function(rest, 0) is None,
    ensures
        hoist(s) == Ok::<Seq<Token>, ParseError>(rest),
        hoisted_functions(s, fns),
{
    reveal(same_hoisting);
    assert(fns + Seq::<KodyFunctionData>::empty() =~= fns);
    assert(hoisted_functions(s, fns + Seq::<KodyFunctionData>::empty()) == hoisted_functions(rest, Seq::empty()));
}

/// Parses a whole program: every `func` definition is taken out of the token
/// sequence and parsed, then the remaining tokens form the main block; the
/// result is as `program_error`, `hoisted_functions` and `block_parses` say.
pub fn parse_tokens(tokens: &[Token]) -> (r: Result<KodySyntaxTree, ParseError>)
    ensures
        r matches Ok(tree) ==> {
            &&& program_error(tokens@) is None
            &&& hoisted_functions(tokens@, tree.functions@)
            &&& hoist(tokens@) matches Ok(rest) && (tree.main matches KodyNode::CodeBlock { statements }
                && block_parses(rest, 0, rest.len() as int, statements@))
        },
        r matches Err(e) ==> program_error(tokens@) == Some(e),
{
    let mut remaining: Vec<Token> = Vec::new();
    let mut i: usize = 0;
    while i < tokens.len()
        invariant
            i <= tokens@.len(),
            remaining@ == tokens@.subrange(0, i as int),
        decreases tokens@.len() - i,
    {
        remaining.push(tokens[i].duplicate());
        i = i + 1;
        assert(remaining@ =~= tokens@.subrange(0, i as int));
    }
    assert(remaining@ =~= tokens@);
    let mut functions: Vec<KodyFunctionData> = Vec::new();
    proof {
        lemma_same_hoisting_start(tokens@);
    }
    loop
        invariant
            same_hoisting(tokens@, functions@, remaining@),
        decreases remaining@.len(),
    {
        let f = match find_function_def(&remaining) {
            Some(f) => f,
            None => {
                proof {
                    lemma_same_hoisting_end(tokens@, functions@, remaining@);
                    assert(program_error(tokens@) == if remaining@.len() == 0 {
                        Some(ParseError::EmptyProgram)
                    } else {
                        block_error(remaining@, 0, remaining@.len() as int)
                    });
                }
                if remaining.len() == 0 {
                    return Err(ParseError::EmptyProgram);
                }
                let main = parse_block(remaining.as_slice(), 0, remaining.len())?;
                return Ok(KodySyntaxTree { functions, main });
            },
        };
        let ghost before = remaining@;
        let (data, end) = match parse_function_tokens(remaining.as_slice(), f) {
            Ok(found) => found,
            Err(e) => {
                proof {
                    lemma_same_hoisting_error(tokens@, functions@, before, f as int, e);
                }
                return Err(e);
            },
        };
        proof {
            lemma_same_hoisting_step(tokens@, functions@, before, data, f as int, end as int);
        }
        functions.push(data);
        remaining = without_span(&remaining, f, end);
    }
}

} // verus!
