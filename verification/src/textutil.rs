use vstd::prelude::*;

use vstd::string::StrSliceExecFns;

verus! {

/// The characters of a string, in order, as a vector.
pub fn str_to_chars(s: &str) -> (r: Vec<char>)
    ensures
        r@ == s@,
{
    let n = s.unicode_len();
    let mut result: Vec<char> = Vec::new();
    for i in 0..n
        invariant
            n == s@.len(),
            result@ == s@.take(i as int),
    {
        result.push(s.get_char(i));
        proof {
            assert(result@ =~= s@.take(i + 1));
        }
    }
    proof {
        assert(s@.take(n as int) =~= s@);
    }
    result
}

/// The character for a single decimal digit.
pub fn digit_of(v: u64) -> (c: char)
    requires
        v <= 9,
    ensures
        c as int == 48 + v,
{
    (48 + v as u8) as char
}

/// Relies on String::from_iter over chars: collects exactly the given
/// characters, in order, into one string.
#[verifier::external_body]
pub fn chars_to_string(chars: &Vec<char>) -> (r: String)
    ensures
        r@ == chars@,
{
    chars.iter().collect()
}

} // verus!
