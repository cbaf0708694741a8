//! Strings and the bytes they are shown as.

use vstd::prelude::*;
use vstd::string::StringExecFns;

verus! {

/// The characters that the bytes of `s` stand for, one for one.
pub open spec fn as_chars(s: Seq<u8>) -> Seq<char> {
    Seq::new(s.len(), |i: int| s[i] as char)
}

/// `String::push` of std: the string with `c` appended.
#[verifier::external_body]
pub(crate) fn push_char(s: &mut String, c: char)
    ensures
        final(s)@ == old(s)@.push(c),
{
    s.push(c)
}

/// `String::pop` of std: the last character is taken from the string and
/// handed back; an empty string stays empty and gives none.
#[verifier::external_body]
pub(crate) fn pop_char(s: &mut String) -> (c: Option<char>)
    ensures
        old(s)@.len() == 0 ==> c is None && final(s)@ == old(s)@,
        old(s)@.len() > 0 ==> c == Some(old(s)@.last()) && final(s)@ == old(s)@.drop_last(),
{
    s.pop()
}

/// The character that stands for the digit `d`.
pub open spec fn digit_char(d: int) -> char {
    ((48 + d) as u8) as char
}

/// The decimal digits of a number, the highest first, without leading
/// zeros; a single zero for zero.
pub open spec fn decimal_digits(n: usize) -> Seq<char>
    decreases n,
{
    if n < 10 {
        seq![digit_char(n as int)]
    } else {
        decimal_digits((n / 10) as usize).push(digit_char((n % 10) as int))
    }
}

/// The number as text: its decimal digits.
pub fn number_text(n: usize) -> (s: String)
    ensures
        s@ == decimal_digits(n),
    decreases n,
{
    let mut s = if n < 10 {
        String::new()
    } else {
        number_text(n / 10)
    };
    let low: u8 = (n % 10) as u8;
    let digit: u8 = 48 + low;
    push_char(&mut s, digit as char);
    proof {
        if n < 10 {
            assert(s@ =~= seq![digit_char(n as int)]);
        }
    }
    s
}

/// The string whose characters the bytes of `bytes` stand for, one for one.
pub fn text_of(bytes: &Vec<u8>) -> (s: String)
    ensures
        s@ == as_chars(bytes@),
{
    let mut out = String::new();
    let mut i: usize = 0;
    while i < bytes.len()
        invariant
            i <= bytes@.len(),
            out@ == as_chars(bytes@.take(i as int)),
        decreases bytes@.len() - i,
    {
        push_char(&mut out, bytes[i] as char);
        i += 1;
        assert(out@ =~= as_chars(bytes@.take(i as int)));
    }
    assert(bytes@.take(i as int) =~= bytes@);
    out
}

/// Whether two texts are the same.
pub fn same_text(a: &str, b: &str) -> (same: bool)
    ensures
        same == (a@ == b@),
{
    let left = String::from_str(a);
    let right = String::from_str(b);
    left == right
}

/// The text `a` followed by the text `b`.
pub fn joined(a: &str, b: &str) -> (s: String)
    ensures
        s@ == a@ + b@,
{
    String::from_str(a).concat(b)
}

} // verus!
