use vstd::prelude::*;

verus! {

broadcast use vstd::string::to_string_from_display_ensures_for_str;

/// An owned copy of a string slice.
pub fn owned(s: &str) -> (r: String)
    ensures
        r@ == s@,
{
    s.to_string()
}

/// Relies on `String::push`: the character is appended at the end.
#[verifier::external_body]
pub(crate) fn push_char(s: &mut String, c: char)
    ensures
        final(s)@ == old(s)@.push(c),
{
    s.push(c);
}

/// Relies on `char::from_u32`: `Some` exactly for Unicode scalar values, which
/// are the code points up to U+10FFFF outside the surrogate range.
#[verifier::external_body]
pub(crate) fn char_from_code(code: u32) -> (r: Option<char>)
    ensures
        r is Some <==> (code <= 0x10FFFF && !(0xD800 <= code && code <= 0xDFFF)),
        r matches Some(c) ==> c as u32 == code,
{
    char::from_u32(code)
}

/// The characters of `text`, in order.
pub fn chars_of(text: &str) -> (r: Vec<char>)
    ensures
        r@ == text@,
{
    let len = text.unicode_len();
    let mut out: Vec<char> = Vec::new();
    let mut i: usize = 0;
    while i < len
        invariant
            len == text@.len(),
            i <= len,
            out@ == text@.take(i as int),
        decreases len - i,
    {
        out.push(text.get_char(i));
        i = i + 1;
        assert(out@ =~= text@.take(i as int));
    }
    assert(text@.take(len as int) =~= text@);
    out
}

/// A string holding `chars[start..end]`.
pub fn string_from(chars: &Vec<char>, start: usize, end: usize) -> (r: String)
    requires
        start <= end <= chars@.len(),
    ensures
        r@ == chars@.subrange(start as int, end as int),
{
    let mut s = String::new();
    let mut i = start;
    while i < end
        invariant
            start <= i <= end,
            end <= chars@.len(),
            s@ == chars@.subrange(start as int, i as int),
        decreases end - i,
    {
        push_char(&mut s, chars[i]);
        i = i + 1;
        assert(s@ =~= chars@.subrange(start as int, i as int));
    }
    s
}

/// A string holding the characters of `chars`.
pub fn string_of(chars: &Vec<char>) -> (r: String)
    ensures
        r@ == chars@,
{
    let r = string_from(chars, 0, chars.len());
    assert(chars@.subrange(0, chars@.len() as int) =~= chars@);
    r
}

} // verus!
