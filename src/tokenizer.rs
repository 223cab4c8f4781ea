use vstd::prelude::*;
use crate::number::is_digit;
use crate::text::{char_from_code, chars_of, push_char, string_from, string_of};

verus! {

/// One lexical unit of the language.
#[derive(Clone, Debug, PartialEq)]
pub enum Token {
    Identifier(String),
    Number(String),
    StringLiteral(String),
    Add,
    Subtract,
    Multiply,
    Divide,
    Assign,
    AddAssign,
    SubtractAssign,
    MultiplyAssign,
    DivideAssign,
    OpenParentheses,
    CloseParentheses,
    OpenCurlyBrackets,
    CloseCurlyBrackets,
    If,
    Else,
    While,
    And,
    Or,
    Not,
    True,
    False,
    Return,
    FunctionDef,
    Equals,
    NotEqual,
    GreaterThan,
    LessThan,
    GreaterThanOrEqual,
    LessThanOrEqual,
    MemberAccess,
    Separator,
}

impl Token {
    /// A copy of this token.
    pub fn duplicate(&self) -> (r: Token)
        ensures
            r == *self,
    {
        match self {
            Token::Identifier(s) => Token::Identifier(s.clone()),
            Token::Number(s) => Token::Number(s.clone()),
            Token::StringLiteral(s) => Token::StringLiteral(s.clone()),
            Token::Add => Token::Add,
            Token::Subtract => Token::Subtract,
            Token::Multiply => Token::Multiply,
            Token::Divide => Token::Divide,
            Token::Assign => Token::Assign,
            Token::AddAssign => Token::AddAssign,
            Token::SubtractAssign => Token::SubtractAssign,
            Token::MultiplyAssign => Token::MultiplyAssign,
            Token::DivideAssign => Token::DivideAssign,
            Token::OpenParentheses => Token::OpenParentheses,
            Token::CloseParentheses => Token::CloseParentheses,
            Token::OpenCurlyBrackets => Token::OpenCurlyBrackets,
            Token::CloseCurlyBrackets => Token::CloseCurlyBrackets,
            Token::If => Token::If,
            Token::Else => Token::Else,
            Token::While => Token::While,
            Token::And => Token::And,
            Token::Or => Token::Or,
            Token::Not => Token::Not,
            Token::True => Token::True,
            Token::False => Token::False,
            Token::Return => Token::Return,
            Token::FunctionDef => Token::FunctionDef,
            Token::Equals => Token::Equals,
            Token::NotEqual => Token::NotEqual,
            Token::GreaterThan => Token::GreaterThan,
            Token::LessThan => Token::LessThan,
            Token::GreaterThanOrEqual => Token::GreaterThanOrEqual,
            Token::LessThanOrEqual => Token::LessThanOrEqual,
            Token::MemberAccess => Token::MemberAccess,
            Token::Separator => Token::Separator,
        }
    }
}

/// Why source text could not be split into tokens.
#[derive(Clone, Copy, Debug, PartialEq, Eq)]
pub enum LexError {
    UnterminatedString,
    InvalidEscape,
    InvalidUnicodeEscape,
    InvalidCodePoint,
    LetterInNumber,
    MultipleDecimalPoints,
    UnknownCharacter(char),
}

pub open spec fn is_letter(c: char) -> bool {
    ('A' <= c && c <= 'Z') || ('a' <= c && c <= 'z')
}

pub open spec fn is_ident_start(c: char) -> bool {
    c == '_' || is_letter(c)
}

pub open spec fn is_ident_char(c: char) -> bool {
    is_ident_start(c) || is_digit(c)
}

pub open spec fn is_number_char(c: char) -> bool {
    is_digit(c) || c == '_' || c == '.'
}

/// The keyword token that a word stands for, if it is a reserved word.
pub open spec fn keyword(s: Seq<char>) -> Option<Token> {
    if s == seq!['i', 'f'] {
        Some(Token::If)
    } else if s == seq!['e', 'l', 's', 'e'] {
        Some(Token::Else)
    } else if s == seq!['w', 'h', 'i', 'l', 'e'] {
        Some(Token::While)
    } else if s == seq!['a', 'n', 'd'] {
        Some(Token::And)
    } else if s == seq!['o', 'r'] {
        Some(Token::Or)
    } else if s == seq!['n', 'o', 't'] {
        Some(Token::Not)
    } else if s == seq!['t', 'r', 'u', 'e'] {
        Some(Token::True)
    } else if s == seq!['f', 'a', 'l', 's', 'e'] {
        Some(Token::False)
    } else if s == seq!['f', 'u', 'n', 'c'] {
        Some(Token::FunctionDef)
    } else if s == seq!['r', 'e', 't', 'u', 'r', 'n'] {
        Some(Token::Return)
    } else {
        None
    }
}

/// `t` is the token for the word `s`: its keyword, or else an identifier.
pub open spec fn word_token(t: Token, s: Seq<char>) -> bool {
    match keyword(s) {
        Some(k) => t == k,
        None => t is Identifier && t->Identifier_0@ == s,
    }
}

/// Drops the leading `0` digits.
pub open spec fn strip_leading_zeros(s: Seq<char>) -> Seq<char>
    decreases s.len(),
{
    if s.len() > 0 && s[0] == '0' {
        strip_leading_zeros(s.drop_first())
    } else {
        s
    }
}

/// Drops the trailing `0` digits.
pub open spec fn strip_trailing_zeros(s: Seq<char>) -> Seq<char>
    decreases s.len(),
{
    if s.len() > 0 && s.last() == '0' {
        strip_trailing_zeros(s.drop_last())
    } else {
        s
    }
}

/// The digits of a literal before its decimal point.
pub open spec fn int_digits(s: Seq<char>) -> Seq<char>
    decreases s.len(),
{
    if s.len() == 0 {
        Seq::empty()
    } else if is_digit(s.last()) && !s.drop_last().contains('.') {
        int_digits(s.drop_last()).push(s.last())
    } else {
        int_digits(s.drop_last())
    }
}

/// The digits of a literal after its decimal point.
pub open spec fn frac_digits(s: Seq<char>) -> Seq<char>
    decreases s.len(),
{
    if s.len() == 0 {
        Seq::empty()
    } else if is_digit(s.last()) && s.drop_last().contains('.') {
        frac_digits(s.drop_last()).push(s.last())
    } else {
        frac_digits(s.drop_last())
    }
}

/// An integer part with no leading zeros, `0` where nothing is left.
pub open spec fn canonical_int(s: Seq<char>) -> Seq<char> {
    if strip_leading_zeros(s).len() == 0 {
        seq!['0']
    } else {
        strip_leading_zeros(s)
    }
}

/// A fraction part with no trailing zeros, `0` where nothing is left.
pub open spec fn canonical_frac(s: Seq<char>) -> Seq<char> {
    if strip_trailing_zeros(s).len() == 0 {
        seq!['0']
    } else {
        strip_trailing_zeros(s)
    }
}

/// The canonical text of a number literal: underscores removed, no leading
/// zeros before the point, no trailing zeros after it, and at least one digit
/// on each side of a point.
pub open spec fn normalize_literal(s: Seq<char>) -> Seq<char> {
    if s.contains('.') {
        canonical_int(int_digits(s)) + seq!['.'] + canonical_frac(frac_digits(s))
    } else {
        canonical_int(int_digits(s))
    }
}

/// Every character of `s` may stand in a number, with at most one point.
pub open spec fn number_span(s: Seq<char>) -> bool {
    &&& forall|i: int| 0 <= i < s.len() ==> is_number_char(#[trigger] s[i])
    &&& forall|i: int, j: int|
        #![trigger s[i], s[j]]
        0 <= i < j < s.len() && s[i] == '.' ==> s[j] != '.'
}

/// What a well-formed token holds: identifiers are words that are not
/// reserved, number literals are canonical.
pub open spec fn token_wf(t: Token) -> bool {
    match t {
        Token::Identifier(s) => {
            &&& s@.len() > 0
            &&& is_ident_start(s@[0])
            &&& forall|i: int| 0 <= i < s@.len() ==> is_ident_char(#[trigger] s@[i])
            &&& keyword(s@) is None
        },
        Token::Number(s) => normalize_literal(s@) == s@,
        _ => true,
    }
}


pub open spec fn all_digits(s: Seq<char>) -> bool {
    forall|i: int| 0 <= i < s.len() ==> is_digit(#[trigger] s[i])
}

proof fn lemma_digits_only(x: Seq<char>)
    requires
        all_digits(x),
    ensures
        int_digits(x) == x,
        frac_digits(x) == Seq::<char>::empty(),
        !x.contains('.'),
    decreases x.len(),
{
    if x.len() > 0 {
        lemma_digits_only(x.drop_last());
        assert(int_digits(x.drop_last()).push(x.last()) =~= x);
    }
    if x.contains('.') {
        let i = choose|i: int| 0 <= i < x.len() && x[i] == '.';
        assert(is_digit(x[i]));
    }
}

proof fn lemma_split_at_point(a: Seq<char>, b: Seq<char>)
    requires
        all_digits(a),
        all_digits(b),
    ensures
        int_digits(a + seq!['.'] + b) == a,
        frac_digits(a + seq!['.'] + b) == b,
        (a + seq!['.'] + b).contains('.'),
    decreases b.len(),
{
    let t = a + seq!['.'] + b;
    assert(t[a.len() as int] == '.');
    if b.len() == 0 {
        assert(t.drop_last() =~= a);
        assert(t =~= a.push('.'));
        lemma_digits_only(a);
    } else {
        lemma_split_at_point(a, b.drop_last());
        let u = a + seq!['.'] + b.drop_last();
        assert(t.drop_last() =~= u);
        assert(u[a.len() as int] == '.');
        assert(t.last() == b.last());
        assert(frac_digits(u).push(b.last()) =~= b);
    }
}

proof fn lemma_strip_leading(x: Seq<char>)
    ensures
        strip_leading_zeros(strip_leading_zeros(x)) == strip_leading_zeros(x),
        all_digits(x) ==> all_digits(strip_leading_zeros(x)),
        strip_leading_zeros(x).len() > 0 ==> strip_leading_zeros(x)[0] != '0',
    decreases x.len(),
{
    if x.len() > 0 && x[0] == '0' {
        lemma_strip_leading(x.drop_first());
        if all_digits(x) {
            assert(all_digits(x.drop_first())) by {
                assert forall|i: int| 0 <= i < x.drop_first().len() implies is_digit(
                    #[trigger] x.drop_first()[i],
                ) by {
                    assert(x.drop_first()[i] == x[i + 1]);
                }
            }
        }
    }
}

proof fn lemma_strip_trailing(x: Seq<char>)
    ensures
        strip_trailing_zeros(strip_trailing_zeros(x)) == strip_trailing_zeros(x),
        all_digits(x) ==> all_digits(strip_trailing_zeros(x)),
    decreases x.len(),
{
    if x.len() > 0 && x.last() == '0' {
        lemma_strip_trailing(x.drop_last());
        if all_digits(x) {
            assert(all_digits(x.drop_last())) by {
                assert forall|i: int| 0 <= i < x.drop_last().len() implies is_digit(
                    #[trigger] x.drop_last()[i],
                ) by {
                    assert(x.drop_last()[i] == x[i]);
                }
            }
        }
    }
}

proof fn lemma_extracted_digits(s: Seq<char>)
    ensures
        all_digits(int_digits(s)),
        all_digits(frac_digits(s)),
    decreases s.len(),
{
    if s.len() > 0 {
        lemma_extracted_digits(s.drop_last());
        let a = int_digits(s.drop_last());
        let b = frac_digits(s.drop_last());
        assert(all_digits(a.push(s.last())) ==> true);
        if is_digit(s.last()) {
            assert forall|i: int| 0 <= i < a.push(s.last()).len() implies is_digit(
                #[trigger] a.push(s.last())[i],
            ) by {
                if i < a.len() {
                    assert(a.push(s.last())[i] == a[i]);
                }
            }
            assert forall|i: int| 0 <= i < b.push(s.last()).len() implies is_digit(
                #[trigger] b.push(s.last())[i],
            ) by {
                if i < b.len() {
                    assert(b.push(s.last())[i] == b[i]);
                }
            }
        }
    }
}

proof fn lemma_canonical_parts(x: Seq<char>)
    requires
        all_digits(x),
    ensures
        all_digits(canonical_int(x)),
        all_digits(canonical_frac(x)),
        canonical_int(canonical_int(x)) == canonical_int(x),
        canonical_frac(canonical_frac(x)) == canonical_frac(x),
{
    lemma_strip_leading(x);
    lemma_strip_trailing(x);
    let z = seq!['0'];
    assert(z.drop_first() =~= Seq::<char>::empty());
    assert(z.drop_last() =~= Seq::<char>::empty());
    assert(strip_leading_zeros(z) == strip_leading_zeros(Seq::<char>::empty()));
    assert(strip_trailing_zeros(z) == strip_trailing_zeros(Seq::<char>::empty()));
    assert(all_digits(z)) by {
        assert forall|i: int| 0 <= i < z.len() implies is_digit(#[trigger] z[i]) by {
            assert(z[i] == '0');
        }
    }
}

/// Normalizing a number literal twice gives what normalizing it once gives:
/// a canonical literal is its own normal form.
pub proof fn law_normalize_idempotent(s: Seq<char>)
    ensures
        normalize_literal(normalize_literal(s)) == normalize_literal(s),
{
    lemma_extracted_digits(s);
    lemma_canonical_parts(int_digits(s));
    lemma_canonical_parts(frac_digits(s));
    let a = canonical_int(int_digits(s));
    let b = canonical_frac(frac_digits(s));
    if s.contains('.') {
        lemma_split_at_point(a, b);
    } else {
        lemma_digits_only(a);
    }
}


/// Whether `w` holds exactly the characters of `k`.
fn word_is(w: &Vec<char>, k: &str) -> (r: bool)
    ensures
        r == (w@ == k@),
{
    let n = k.unicode_len();
    if w.len() != n {
        return false;
    }
    let mut i: usize = 0;
    while i < n
        invariant
            n == k@.len(),
            n == w@.len(),
            i <= n,
            forall|j: int| 0 <= j < i ==> w@[j] == k@[j],
        decreases n - i,
    {
        if w[i] != k.get_char(i) {
            return false;
        }
        i = i + 1;
    }
    assert(w@ =~= k@);
    true
}

/// The keyword token that the word `w` stands for, if any.
fn keyword_of(w: &Vec<char>) -> (r: Option<Token>)
    ensures
        r == keyword(w@),
{
    proof {
        reveal_strlit("if");
        assert("if"@ =~= seq!['i', 'f']);
        reveal_strlit("else");
        assert("else"@ =~= seq!['e', 'l', 's', 'e']);
        reveal_strlit("while");
        assert("while"@ =~= seq!['w', 'h', 'i', 'l', 'e']);
        reveal_strlit("and");
        assert("and"@ =~= seq!['a', 'n', 'd']);
        reveal_strlit("or");
        assert("or"@ =~= seq!['o', 'r']);
        reveal_strlit("not");
        assert("not"@ =~= seq!['n', 'o', 't']);
        reveal_strlit("true");
        assert("true"@ =~= seq!['t', 'r', 'u', 'e']);
        reveal_strlit("false");
        assert("false"@ =~= seq!['f', 'a', 'l', 's', 'e']);
        reveal_strlit("func");
        assert("func"@ =~= seq!['f', 'u', 'n', 'c']);
        reveal_strlit("return");
        assert("return"@ =~= seq!['r', 'e', 't', 'u', 'r', 'n']);
    }
    if word_is(w, "if") {
        Some(Token::If)
    } else if word_is(w, "else") {
        Some(Token::Else)
    } else if word_is(w, "while") {
        Some(Token::While)
    } else if word_is(w, "and") {
        Some(Token::And)
    } else if word_is(w, "or") {
        Some(Token::Or)
    } else if word_is(w, "not") {
        Some(Token::Not)
    } else if word_is(w, "true") {
        Some(Token::True)
    } else if word_is(w, "false") {
        Some(Token::False)
    } else if word_is(w, "func") {
        Some(Token::FunctionDef)
    } else if word_is(w, "return") {
        Some(Token::Return)
    } else {
        None
    }
}

fn is_ident_start_char(c: char) -> (r: bool)
    ensures
        r == is_ident_start(c),
{
    c == '_' || ('A' <= c && c <= 'Z') || ('a' <= c && c <= 'z')
}

fn is_ident_char_exec(c: char) -> (r: bool)
    ensures
        r == is_ident_char(c),
{
    is_ident_start_char(c) || ('0' <= c && c <= '9')
}

/// Reads the identifier or keyword that starts at `start`: the longest run of
/// identifier characters.
pub fn tokenize_identifier(chars: &Vec<char>, start: usize) -> (r: (Token, usize))
    requires
        start < chars@.len(),
        is_ident_start(chars@[start as int]),
    ensures
        start < r.1 <= chars@.len(),
        forall|k: int| start <= k < r.1 ==> is_ident_char(#[trigger] chars@[k]),
        r.1 == chars@.len() || !is_ident_char(chars@[r.1 as int]),
        word_token(r.0, chars@.subrange(start as int, r.1 as int)),
        token_wf(r.0),
        r.1 == ident_end(chars@, start as int),
{
    let len = chars.len();
    let mut end = start + 1;
    while end < len && is_ident_char_exec(chars[end])
        invariant
            len == chars@.len(),
            start < end <= chars@.len(),
            forall|k: int| start <= k < end ==> is_ident_char(#[trigger] chars@[k]),
        decreases chars@.len() - end,
    {
        end = end + 1;
    }
    proof {
        lemma_ident_run(chars@, start as int, end as int);
    }
    let mut word: Vec<char> = Vec::new();
    let mut i = start;
    while i < end
        invariant
            start <= i <= end,
            end <= chars@.len(),
            word@ == chars@.subrange(start as int, i as int),
        decreases end - i,
    {
        word.push(chars[i]);
        i = i + 1;
        assert(word@ =~= chars@.subrange(start as int, i as int));
    }
    match keyword_of(&word) {
        Some(k) => (k, end),
        None => {
            let name = string_of(&word);
            (Token::Identifier(name), end)
        },
    }
}

/// The characters of `v` after its leading zeros, or `0` if none are left.
fn canonical_int_of(v: &Vec<char>) -> (r: Vec<char>)
    ensures
        r@ == canonical_int(v@),
{
    let mut k: usize = 0;
    assert(v@.subrange(0, v@.len() as int) =~= v@);
    while k < v.len() && v[k] == '0'
        invariant
            k <= v@.len(),
            strip_leading_zeros(v@.subrange(k as int, v@.len() as int)) == strip_leading_zeros(v@),
        decreases v@.len() - k,
    {
        assert(v@.subrange(k as int, v@.len() as int).drop_first() =~= v@.subrange(
            k + 1,
            v@.len() as int,
        ));
        k = k + 1;
    }
    let mut r: Vec<char> = Vec::new();
    if k == v.len() {
        assert(v@.subrange(k as int, v@.len() as int) =~= Seq::<char>::empty());
        r.push('0');
        assert(r@ =~= seq!['0']);
        return r;
    }
    let mut i = k;
    while i < v.len()
        invariant
            k <= i <= v@.len(),
            r@ == v@.subrange(k as int, i as int),
        decreases v@.len() - i,
    {
        r.push(v[i]);
        i = i + 1;
        assert(r@ =~= v@.subrange(k as int, i as int));
    }
    r
}

/// The characters of `v` before its trailing zeros, or `0` if none are left.
fn canonical_frac_of(v: &Vec<char>) -> (r: Vec<char>)
    ensures
        r@ == canonical_frac(v@),
{
    let mut k: usize = v.len();
    assert(v@.subrange(0, v@.len() as int) =~= v@);
    while k > 0 && v[k - 1] == '0'
        invariant
            k <= v@.len(),
            strip_trailing_zeros(v@.subrange(0, k as int)) == strip_trailing_zeros(v@),
        decreases k,
    {
        assert(v@.subrange(0, k as int).drop_last() =~= v@.subrange(0, k - 1));
        k = k - 1;
    }
    assert(v@.subrange(0, v@.len() as int) =~= v@);
    let mut r: Vec<char> = Vec::new();
    if k == 0 {
        assert(v@.subrange(0, 0) =~= Seq::<char>::empty());
        r.push('0');
        assert(r@ =~= seq!['0']);
        return r;
    }
    let mut i: usize = 0;
    while i < k
        invariant
            i <= k <= v@.len(),
            r@ == v@.subrange(0, i as int),
        decreases k - i,
    {
        r.push(v[i]);
        i = i + 1;
        assert(r@ =~= v@.subrange(0, i as int));
    }
    r
}


/// A run of number characters from `start` up to `end`, with `end` holding
/// a letter or a second point: the literal is rejected there.
pub open spec fn number_rejected_at(s: Seq<char>, start: int, end: int) -> bool {
    &&& start < end < s.len()
    &&& forall|k: int| start <= k < end ==> is_number_char(#[trigger] s[k])
    &&& (is_letter(s[end]) || (s[end] == '.' && s.subrange(start, end).contains('.')))
}

/// Reads the number literal that starts at `start`: digits and underscores
/// with at most one point. A letter inside it, or a second point, is an error.
pub fn tokenize_number(chars: &Vec<char>, start: usize) -> (r: Result<(Token, usize), LexError>)
    requires
        start < chars@.len(),
        is_digit(chars@[start as int]),
    ensures
        r matches Ok((t, end)) ==> {
            &&& start < end <= chars@.len()
            &&& number_span(chars@.subrange(start as int, end as int))
            &&& (end == chars@.len() || !(is_number_char(chars@[end as int]) || is_letter(
                chars@[end as int],
            )))
            &&& t is Number
            &&& t->Number_0@ == normalize_literal(chars@.subrange(start as int, end as int))
            &&& token_wf(t)
        },
        r is Err ==> exists|end: int| number_rejected_at(chars@, start as int, end),
        r matches Err(e) ==> (e == LexError::LetterInNumber || e
            == LexError::MultipleDecimalPoints),
        number_scan(chars@, start as int) matches Ok((text, e)) ==> (r matches Ok((t, end)) && t
            is Number && t->Number_0@ == text && end == e),
        number_scan(chars@, start as int) matches Err(e) ==> r == Err::<(Token, usize), LexError>(e),
{
    let len = chars.len();
    let mut int_part: Vec<char> = Vec::new();
    let mut frac_part: Vec<char> = Vec::new();
    let mut seen_dot = false;
    int_part.push(chars[start]);
    let mut end = start + 1;
    proof {
        let first = chars@.subrange(start as int, end as int);
        assert(first.drop_last() =~= Seq::<char>::empty());
        assert(first.last() == chars@[start as int]);
        assert(!first.drop_last().contains('.'));
        assert(int_digits(first.drop_last()) == Seq::<char>::empty());
        assert(frac_digits(first.drop_last()) == Seq::<char>::empty());
        assert(int_digits(first) == Seq::<char>::empty().push(chars@[start as int]));
        assert(int_part@ =~= int_digits(first));
        assert(frac_part@ =~= frac_digits(first));
        assert(!first.contains('.')) by {
            if first.contains('.') {
                let j = choose|j: int| 0 <= j < first.len() && first[j] == '.';
                assert(first[j] == chars@[start as int]);
            }
        }
    }
    while end < len && (('0' <= chars[end] && chars[end] <= '9') || chars[end] == '_'
        || chars[end] == '.')
        invariant
            len == chars@.len(),
            start < end <= len,
            is_digit(chars@[start as int]),
            int_part@ == int_digits(chars@.subrange(start as int, end as int)),
            frac_part@ == frac_digits(chars@.subrange(start as int, end as int)),
            seen_dot == chars@.subrange(start as int, end as int).contains('.'),
            number_span(chars@.subrange(start as int, end as int)),
        decreases len - end,
    {
        let c = chars[end];
        let ghost before = chars@.subrange(start as int, end as int);
        let ghost after = chars@.subrange(start as int, end + 1);
        proof {
            assert(after.drop_last() =~= before);
            assert(after.last() == c);
        }
        proof {
            assert forall|k: int| start <= k < end implies is_number_char(#[trigger] chars@[k]) by {
                assert(chars@[k] == before[k - start]);
            }
        }
        if c == '.' {
            if seen_dot {
                assert(number_rejected_at(chars@, start as int, end as int));
                proof {
                    lemma_number_run(chars@, start as int, end + 1);
                    lemma_run_ends(chars@, end + 1);
                    let full = chars@.subrange(start as int, number_run_end(chars@, start as int));
                    let i = choose|i: int| 0 <= i < before.len() && before[i] == '.';
                    assert(full[i] == '.' && full[end - start] == '.');
                    assert(!number_span(full));
                }
                return Err(LexError::MultipleDecimalPoints);
            }
            seen_dot = true;
        } else if '0' <= c && c <= '9' {
            if seen_dot {
                frac_part.push(c);
            } else {
                int_part.push(c);
            }
        }
        proof {
            assert(after.contains('.') == (before.contains('.') || c == '.')) by {
                if c == '.' {
                    assert(after[after.len() - 1] == '.');
                }
                if before.contains('.') {
                    let j = choose|j: int| 0 <= j < before.len() && before[j] == '.';
                    assert(after[j] == '.');
                }
                if after.contains('.') {
                    let j = choose|j: int| 0 <= j < after.len() && after[j] == '.';
                    if j < before.len() {
                        assert(before[j] == '.');
                    }
                }
            }
            assert(number_span(after)) by {
                assert forall|i: int| 0 <= i < after.len() implies is_number_char(
                    #[trigger] after[i],
                ) by {
                    if i < before.len() {
                        assert(after[i] == before[i]);
                    }
                }
                assert forall|i: int, j: int|
                    #![trigger after[i], after[j]]
                    0 <= i < j < after.len() && after[i] == '.' implies after[j] != '.' by {
                    if j < before.len() {
                        assert(after[i] == before[i] && after[j] == before[j]);
                    } else if after[j] == '.' {
                        assert(before[i] == '.');
                    }
                }
            }
        }
        end = end + 1;
    }
    if end < len && (('A' <= chars[end] && chars[end] <= 'Z') || ('a' <= chars[end]
        && chars[end] <= 'z')) {
        proof {
            let run = chars@.subrange(start as int, end as int);
            assert forall|k: int| start <= k < end implies is_number_char(#[trigger] chars@[k]) by {
                assert(chars@[k] == run[k - start]);
            }
            assert(number_rejected_at(chars@, start as int, end as int));
            lemma_number_run(chars@, start as int, end as int);
        }
        return Err(LexError::LetterInNumber);
    }
    let int_text = canonical_int_of(&int_part);
    let mut literal = int_text;
    if seen_dot {
        let frac_text = canonical_frac_of(&frac_part);
        literal.push('.');
        let mut i: usize = 0;
        let ghost base = literal@;
        while i < frac_text.len()
            invariant
                i <= frac_text@.len(),
                literal@ == base + frac_text@.subrange(0, i as int),
            decreases frac_text@.len() - i,
        {
            literal.push(frac_text[i]);
            i = i + 1;
            assert(literal@ =~= base + frac_text@.subrange(0, i as int));
        }
        assert(frac_text@.subrange(0, frac_text@.len() as int) =~= frac_text@);
        assert(literal@ =~= canonical_int(int_part@) + seq!['.'] + canonical_frac(frac_part@));
    }
    assert(literal@ == normalize_literal(chars@.subrange(start as int, end as int)));
    proof {
        let run = chars@.subrange(start as int, end as int);
        assert forall|k: int| start <= k < end implies is_number_char(#[trigger] chars@[k]) by {
            assert(chars@[k] == run[k - start]);
        }
        lemma_number_run(chars@, start as int, end as int);
    }
    assert(end == len || !(is_number_char(chars@[end as int]) || is_letter(chars@[end as int])));
    let text = string_of(&literal);
    proof {
        law_normalize_idempotent(chars@.subrange(start as int, end as int));
    }
    Ok((Token::Number(text), end))
}


/// The value of a hexadecimal digit.
pub open spec fn hex_digit(c: char) -> Option<u32> {
    if '0' <= c && c <= '9' {
        Some((c as u32 - '0' as u32) as u32)
    } else if 'a' <= c && c <= 'f' {
        Some((c as u32 - 'a' as u32 + 10) as u32)
    } else if 'A' <= c && c <= 'F' {
        Some((c as u32 - 'A' as u32 + 10) as u32)
    } else {
        None
    }
}

fn hex_digit_of(c: char) -> (r: Option<u32>)
    ensures
        r == hex_digit(c),
{
    if '0' <= c && c <= '9' {
        Some(c as u32 - '0' as u32)
    } else if 'a' <= c && c <= 'f' {
        Some(c as u32 - 'a' as u32 + 10)
    } else if 'A' <= c && c <= 'F' {
        Some(c as u32 - 'A' as u32 + 10)
    } else {
        None
    }
}

/// Reads the string literal whose opening quote stands at `start`, handling
/// the escapes `\\`, `\n`, `\'`, `\"`, a backslash before a line break, and
/// `\U+` followed by hexadecimal digits of a code point.
pub fn tokenize_string(chars: &Vec<char>, start: usize) -> (r: Result<(Token, usize), LexError>)
    requires
        start < chars@.len(),
        chars@[start as int] == '"',
    ensures
        string_scan(chars@, start + 1, Seq::empty()) matches Ok((text, e)) ==> (r matches Ok((t, end))
            && t is StringLiteral && t->StringLiteral_0@ == text && end == e),
        string_scan(chars@, start + 1, Seq::empty()) matches Err(e) ==> r == Err::<(Token, usize), LexError>(e),
        r matches Ok((_, end)) ==> start < end <= chars@.len(),
{
    let len = chars.len();
    let mut data = String::new();
    let mut pos = start + 1;
    let ghost target = string_scan(chars@, start + 1, Seq::empty());
    assert(data@ =~= Seq::<char>::empty());
    while pos < len
        invariant
            len == chars@.len(),
            start < pos <= len,
            string_scan(chars@, pos as int, data@) == target,
            target == string_scan(chars@, start + 1, Seq::empty()),
        decreases len - pos,
    {
        let c = chars[pos];
        if c == '"' {
            return Ok((Token::StringLiteral(data), pos + 1));
        }
        if c == '\\' {
            if pos + 1 >= len {
                return Err(LexError::InvalidEscape);
            }
            let e = chars[pos + 1];
            if e == '\\' {
                push_char(&mut data, '\\');
                pos = pos + 2;
            } else if e == 'n' {
                push_char(&mut data, '\n');
                pos = pos + 2;
            } else if e == '\'' {
                push_char(&mut data, '\'');
                pos = pos + 2;
            } else if e == '"' {
                push_char(&mut data, '"');
                pos = pos + 2;
            } else if e == '\n' {
                pos = pos + 2;
            } else if e == 'U' {
                if pos + 2 >= len || chars[pos + 2] != '+' {
                    return Err(LexError::InvalidUnicodeEscape);
                }
                let hex_start = pos + 3;
                let mut q = hex_start;
                let mut code: u32 = 0;
                let mut too_large = false;
                let ghost mut v: nat = 0;
                while q < len && hex_digit_of(chars[q]).is_some()
                    invariant
                        len == chars@.len(),
                        pos < hex_start <= q <= len,
                        hex_scan(chars@, q as int, hex_start as int, v, data@) == target,
                        too_large <==> v > 0x10FFFF,
                        !too_large ==> code == v,
                    decreases len - q,
                {
                    let d = match hex_digit_of(chars[q]) {
                        Some(d) => d,
                        None => 0,
                    };
                    proof {
                        v = (v * 16 + d) as nat;
                    }
                    if !too_large {
                        if code > 0x10FFFF / 16 {
                            too_large = true;
                        } else {
                            code = code * 16 + d;
                            if code > 0x10FFFF {
                                too_large = true;
                            }
                        }
                    }
                    q = q + 1;
                }
                if q == hex_start {
                    return Err(LexError::InvalidUnicodeEscape);
                }
                if too_large {
                    return Err(LexError::InvalidCodePoint);
                }
                match char_from_code(code) {
                    Some(ch) => {
                        push_char(&mut data, ch);
                        proof {
                            vstd::utf8::char_u32_cast(ch, code);
                            assert(v as u32 == code);
                        }
                    },
                    None => {
                        return Err(LexError::InvalidCodePoint);
                    },
                }
                pos = q;
            } else {
                return Err(LexError::InvalidEscape);
            }
        } else {
            push_char(&mut data, c);
            pos = pos + 1;
        }
    }
    Err(LexError::UnterminatedString)
}

/// Splits source text into tokens. Whitespace and `#` comments (to the end of
/// the line) are dropped; an operator followed by `=` forms the two-character
/// operator where one exists.
pub fn tokenize(text: &str) -> (r: Result<Vec<Token>, LexError>)
    ensures
        r matches Ok(tokens) ==> lexes(text@, 0, tokens@),
        r matches Ok(tokens) ==> forall|i: int| 0 <= i < tokens@.len() ==> token_wf(#[trigger] tokens@[i]),
        r is Ok <==> lex_error(text@, 0) is None,
        r matches Err(e) ==> lex_error(text@, 0) == Some(e),
{
    let chars = chars_of(text);
    let len = chars.len();
    let mut tokens: Vec<Token> = Vec::new();
    let mut pos: usize = 0;
    proof {
        assert forall|rest: Seq<Token>| lexes(chars@, 0, tokens@ + rest) == lexes(chars@, 0, rest) by {
            assert(tokens@ + rest =~= rest);
        }
    }
    while pos < len
        invariant
            len == chars@.len(),
            chars@ == text@,
            pos <= len,
            forall|i: int| 0 <= i < tokens@.len() ==> token_wf(#[trigger] tokens@[i]),
            forall|rest: Seq<Token>| lexes(chars@, 0, tokens@ + rest) == lexes(chars@, pos as int, rest),
            lex_error(chars@, 0) == lex_error(chars@, pos as int),
        decreases len - pos,
    {
        let c = chars[pos];
        let ghost s = chars@;
        let ghost origin = pos as int;
        let ghost before = tokens@;
        let emitted: Option<Token>;
        let next: usize;
        if is_ident_start_char(c) {
            let (t, end) = tokenize_identifier(&chars, pos);
            proof {
                lemma_run_ends(s, origin);
            }
            emitted = Some(t);
            next = end;
        } else if '0' <= c && c <= '9' {
            let (t, end) = match tokenize_number(&chars, pos) {
                Ok(found) => found,
                Err(e) => {
                    return Err(e);
                },
            };
            emitted = Some(t);
            next = end;
        } else if c == '"' {
            let (t, end) = match tokenize_string(&chars, pos) {
                Ok(found) => found,
                Err(e) => {
                    return Err(e);
                },
            };
            emitted = Some(t);
            next = end;
        } else if c == '#' {
            let mut q = pos + 1;
            while q < len && chars[q] != '\n'
                invariant
                    len == chars@.len(),
                    origin < q <= len,
                    comment_end(chars@, q as int) == comment_end(chars@, origin + 1),
                decreases len - q,
            {
                q = q + 1;
            }
            if q < len {
                q = q + 1;
            }
            emitted = None;
            next = q;
        } else if c == ' ' || c == '\t' || c == '\r' || c == '\n' {
            emitted = None;
            next = pos + 1;
        } else {
            let followed_by_equals = pos + 1 < len && chars[pos + 1] == '=';
            let single = if c == '(' {
                Some(Token::OpenParentheses)
            } else if c == ')' {
                Some(Token::CloseParentheses)
            } else if c == '{' {
                Some(Token::OpenCurlyBrackets)
            } else if c == '}' {
                Some(Token::CloseCurlyBrackets)
            } else if c == ',' {
                Some(Token::Separator)
            } else if c == '.' {
                Some(Token::MemberAccess)
            } else {
                None
            };
            let (t, width) = match single {
                Some(t) => (t, 1),
                None => {
                    let operator = if followed_by_equals {
                        if c == '+' {
                            Some(Token::AddAssign)
                        } else if c == '-' {
                            Some(Token::SubtractAssign)
                        } else if c == '*' {
                            Some(Token::MultiplyAssign)
                        } else if c == '/' {
                            Some(Token::DivideAssign)
                        } else if c == '=' {
                            Some(Token::Equals)
                        } else if c == '!' {
                            Some(Token::NotEqual)
                        } else if c == '<' {
                            Some(Token::LessThanOrEqual)
                        } else if c == '>' {
                            Some(Token::GreaterThanOrEqual)
                        } else {
                            None
                        }
                    } else if c == '+' {
                        Some(Token::Add)
                    } else if c == '-' {
                        Some(Token::Subtract)
                    } else if c == '*' {
                        Some(Token::Multiply)
                    } else if c == '/' {
                        Some(Token::Divide)
                    } else if c == '=' {
                        Some(Token::Assign)
                    } else if c == '<' {
                        Some(Token::LessThan)
                    } else if c == '>' {
                        Some(Token::GreaterThan)
                    } else {
                        None
                    };
                    match operator {
                        Some(t) => (t, if followed_by_equals { 2 } else { 1 }),
                        None => {
                            return Err(LexError::UnknownCharacter(c));
                        },
                    }
                },
            };
            proof {
                assert(fixed_token(s, origin) == Some((t, width as int)));
            }
            emitted = Some(t);
            next = pos + width;
        }
        let ghost emitted_view = emitted;
        proof {
            match emitted_view {
                Some(t) => {
                    assert forall|rest: Seq<Token>| lexes(s, origin, seq![t] + rest) == lexes(s, next as int, rest) by {
                        assert((seq![t] + rest)[0] == t);
                        assert((seq![t] + rest).drop_first() =~= rest);
                    }
                    assert forall|rest: Seq<Token>| lexes(s, 0, before.push(t) + rest) == lexes(s, next as int, rest) by {
                        assert(before.push(t) + rest =~= before + (seq![t] + rest));
                    }
                },
                None => {
                    assert forall|rest: Seq<Token>| lexes(s, origin, rest) == lexes(s, next as int, rest) by {}
                },
            }
        }
        match emitted {
            Some(t) => tokens.push(t),
            None => {},
        }
        pos = next;
    }
    proof {
        let empty = Seq::<Token>::empty();
        assert(tokens@ + empty =~= tokens@);
        assert(lexes(chars@, pos as int, empty));
        assert(lexes(chars@, 0, tokens@ + empty) == lexes(chars@, pos as int, empty));
    }
    Ok(tokens)
}

/// The end of the run of identifier characters that starts at `pos`.
pub open spec fn ident_end(s: Seq<char>, pos: int) -> int
    decreases s.len() - pos,
{
    if 0 <= pos < s.len() && is_ident_char(s[pos]) {
        ident_end(s, pos + 1)
    } else {
        pos
    }
}

/// The end of the run of number characters that starts at `pos`.
pub open spec fn number_run_end(s: Seq<char>, pos: int) -> int
    decreases s.len() - pos,
{
    if 0 <= pos < s.len() && is_number_char(s[pos]) {
        number_run_end(s, pos + 1)
    } else {
        pos
    }
}

/// The index after the line break that ends a comment, scanning from `pos`.
pub open spec fn comment_end(s: Seq<char>, pos: int) -> int
    decreases s.len() - pos,
{
    if pos < 0 || pos >= s.len() {
        pos
    } else if s[pos] == '\n' {
        pos + 1
    } else {
        comment_end(s, pos + 1)
    }
}

proof fn lemma_run_ends(s: Seq<char>, pos: int)
    requires
        0 <= pos,
    ensures
        pos <= ident_end(s, pos),
        pos <= number_run_end(s, pos),
        pos <= comment_end(s, pos),
        pos < s.len() ==> pos < comment_end(s, pos),
        pos <= s.len() ==> ident_end(s, pos) <= s.len(),
        pos <= s.len() ==> number_run_end(s, pos) <= s.len(),
        pos <= s.len() ==> comment_end(s, pos) <= s.len(),
    decreases s.len() - pos,
{
    if pos < s.len() {
        lemma_run_ends(s, pos + 1);
    }
}

/// A number literal at `pos`: its canonical text and end, or why it is rejected.
pub open spec fn number_scan(s: Seq<char>, pos: int) -> Result<(Seq<char>, int), LexError> {
    let e = number_run_end(s, pos);
    let run = s.subrange(pos, e);
    if !number_span(run) {
        Err(LexError::MultipleDecimalPoints)
    } else if e < s.len() && is_letter(s[e]) {
        Err(LexError::LetterInNumber)
    } else {
        Ok((normalize_literal(run), e))
    }
}

pub open spec fn valid_code(v: nat) -> bool {
    v <= 0x10FFFF && !(0xD800 <= v && v <= 0xDFFF)
}

/// The body of a string literal from `p` (after the opening quote), with
/// `acc` read so far: the text and the index after the closing quote.
pub open spec fn string_scan(s: Seq<char>, p: int, acc: Seq<char>) -> Result<(Seq<char>, int), LexError>
    decreases s.len() - p, 0nat,
{
    if p < 0 || p >= s.len() {
        Err(LexError::UnterminatedString)
    } else if s[p] == '"' {
        Ok((acc, p + 1))
    } else if s[p] == '\\' {
        if p + 1 >= s.len() {
            Err(LexError::InvalidEscape)
        } else {
            let e = s[p + 1];
            if e == '\\' {
                string_scan(s, p + 2, acc.push('\\'))
            } else if e == 'n' {
                string_scan(s, p + 2, acc.push('\n'))
            } else if e == '\'' {
                string_scan(s, p + 2, acc.push('\''))
            } else if e == '"' {
                string_scan(s, p + 2, acc.push('"'))
            } else if e == '\n' {
                string_scan(s, p + 2, acc)
            } else if e == 'U' {
                if p + 2 >= s.len() || s[p + 2] != '+' {
                    Err(LexError::InvalidUnicodeEscape)
                } else {
                    hex_scan(s, p + 3, p + 3, 0, acc)
                }
            } else {
                Err(LexError::InvalidEscape)
            }
        }
    } else {
        string_scan(s, p + 1, acc.push(s[p]))
    }
}

/// Reads the hexadecimal digits of a `\U+` escape from `q` (they started at
/// `start`, with value `v` so far), then goes on with the string.
pub open spec fn hex_scan(s: Seq<char>, q: int, start: int, v: nat, acc: Seq<char>) -> Result<(Seq<char>, int), LexError>
    decreases s.len() - q, 1nat,
{
    if 0 <= q < s.len() && hex_digit(s[q]) is Some {
        hex_scan(s, q + 1, start, (v * 16 + hex_digit(s[q])->0) as nat, acc)
    } else if q == start {
        Err(LexError::InvalidUnicodeEscape)
    } else if !valid_code(v) {
        Err(LexError::InvalidCodePoint)
    } else {
        string_scan(s, q, acc.push((v as u32) as char))
    }
}

proof fn lemma_number_run(s: Seq<char>, p: int, q: int)
    requires
        0 <= p <= q <= s.len(),
        forall|k: int| p <= k < q ==> is_number_char(#[trigger] s[k]),
    ensures
        number_run_end(s, p) == number_run_end(s, q),
    decreases q - p,
{
    if p < q {
        lemma_number_run(s, p + 1, q);
    }
}

proof fn lemma_ident_run(s: Seq<char>, p: int, q: int)
    requires
        0 <= p <= q <= s.len(),
        forall|k: int| p <= k < q ==> is_ident_char(#[trigger] s[k]),
    ensures
        ident_end(s, p) == ident_end(s, q),
    decreases q - p,
{
    if p < q {
        lemma_ident_run(s, p + 1, q);
    }
}

/// The operator or punctuation token at `pos` and its width.
pub open spec fn fixed_token(s: Seq<char>, pos: int) -> Option<(Token, int)> {
    let c = s[pos];
    let eq = pos + 1 < s.len() && s[pos + 1] == '=';
    if c == '(' {
        Some((Token::OpenParentheses, 1))
    } else if c == ')' {
        Some((Token::CloseParentheses, 1))
    } else if c == '{' {
        Some((Token::OpenCurlyBrackets, 1))
    } else if c == '}' {
        Some((Token::CloseCurlyBrackets, 1))
    } else if c == ',' {
        Some((Token::Separator, 1))
    } else if c == '.' {
        Some((Token::MemberAccess, 1))
    } else if eq {
        if c == '+' {
            Some((Token::AddAssign, 2))
        } else if c == '-' {
            Some((Token::SubtractAssign, 2))
        } else if c == '*' {
            Some((Token::MultiplyAssign, 2))
        } else if c == '/' {
            Some((Token::DivideAssign, 2))
        } else if c == '=' {
            Some((Token::Equals, 2))
        } else if c == '!' {
            Some((Token::NotEqual, 2))
        } else if c == '<' {
            Some((Token::LessThanOrEqual, 2))
        } else if c == '>' {
            Some((Token::GreaterThanOrEqual, 2))
        } else {
            None
        }
    } else if c == '+' {
        Some((Token::Add, 1))
    } else if c == '-' {
        Some((Token::Subtract, 1))
    } else if c == '*' {
        Some((Token::Multiply, 1))
    } else if c == '/' {
        Some((Token::Divide, 1))
    } else if c == '=' {
        Some((Token::Assign, 1))
    } else if c == '<' {
        Some((Token::LessThan, 1))
    } else if c == '>' {
        Some((Token::GreaterThan, 1))
    } else {
        None
    }
}

pub open spec fn is_space(c: char) -> bool {
    c == ' ' || c == '\t' || c == '\r' || c == '\n'
}

/// `ts` is the token sequence of `s[pos..]`: whitespace and comments are
/// dropped, each token is the longest one that starts where the last ended.
pub open spec fn lexes(s: Seq<char>, pos: int, ts: Seq<Token>) -> bool
    decreases s.len() - pos,
    via lexes_decreases
{
    if pos < 0 || pos >= s.len() {
        ts.len() == 0
    } else {
        let c = s[pos];
        if is_space(c) {
            lexes(s, pos + 1, ts)
        } else if c == '#' {
            lexes(s, comment_end(s, pos + 1), ts)
        } else if is_ident_start(c) {
            let e = ident_end(s, pos);
            ts.len() > 0 && word_token(ts[0], s.subrange(pos, e)) && lexes(s, e, ts.drop_first())
        } else if is_digit(c) {
            match number_scan(s, pos) {
                Ok((text, e)) => ts.len() > 0 && ts[0] is Number && ts[0]->Number_0@ == text
                    && lexes(s, e, ts.drop_first()),
                Err(_) => false,
            }
        } else if c == '"' {
            match string_scan(s, pos + 1, Seq::empty()) {
                Ok((text, e)) => ts.len() > 0 && ts[0] is StringLiteral && ts[0]->StringLiteral_0@
                    == text && pos < e <= s.len() && lexes(s, e, ts.drop_first()),
                Err(_) => false,
            }
        } else {
            match fixed_token(s, pos) {
                Some((t, w)) => ts.len() > 0 && ts[0] == t && lexes(s, pos + w, ts.drop_first()),
                None => false,
            }
        }
    }
}

#[via_fn]
proof fn lexes_decreases(s: Seq<char>, pos: int, ts: Seq<Token>) {
    if 0 <= pos < s.len() {
        lemma_run_ends(s, pos + 1);
        lemma_run_ends(s, pos);
        if is_ident_start(s[pos]) {
            assert(ident_end(s, pos) == ident_end(s, pos + 1));
        }
        if is_digit(s[pos]) {
            assert(number_run_end(s, pos) == number_run_end(s, pos + 1));
        }
    }
}

/// The first error met while reading `s[pos..]`, if any.
pub open spec fn lex_error(s: Seq<char>, pos: int) -> Option<LexError>
    decreases s.len() - pos,
    via lex_error_decreases
{
    if pos < 0 || pos >= s.len() {
        None
    } else {
        let c = s[pos];
        if is_space(c) {
            lex_error(s, pos + 1)
        } else if c == '#' {
            lex_error(s, comment_end(s, pos + 1))
        } else if is_ident_start(c) {
            lex_error(s, ident_end(s, pos))
        } else if is_digit(c) {
            match number_scan(s, pos) {
                Ok((_, e)) => lex_error(s, e),
                Err(e) => Some(e),
            }
        } else if c == '"' {
            match string_scan(s, pos + 1, Seq::empty()) {
                Ok((_, e)) => if pos < e <= s.len() {
                    lex_error(s, e)
                } else {
                    None
                },
                Err(e) => Some(e),
            }
        } else {
            match fixed_token(s, pos) {
                Some((_, w)) => lex_error(s, pos + w),
                None => Some(LexError::UnknownCharacter(c)),
            }
        }
    }
}

#[via_fn]
proof fn lex_error_decreases(s: Seq<char>, pos: int) {
    if 0 <= pos < s.len() {
        lemma_run_ends(s, pos + 1);
        lemma_run_ends(s, pos);
        if is_ident_start(s[pos]) {
            assert(ident_end(s, pos) == ident_end(s, pos + 1));
        }
        if is_digit(s[pos]) {
            assert(number_run_end(s, pos) == number_run_end(s, pos + 1));
        }
    }
}

} // verus!
