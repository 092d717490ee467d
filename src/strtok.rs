//! Cutting tokens off the front of a string.
use vstd::prelude::*;

verus! {

/// The position of the first `c` in `s`, if there is one.
pub open spec fn char_pos(s: Seq<char>, c: char) -> Option<nat>
    decreases s.len(),
{
    if s.len() == 0 {
        None
    } else if s[0] == c {
        Some(0)
    } else {
        match char_pos(s.drop_first(), c) {
            Some(j) => Some(j + 1),
            None => None,
        }
    }
}

/// Relies on str::split_once with a char pattern: what comes before the
/// first `pat` in `s` and what comes after it, or `None` if `s` holds no
/// `pat`.
#[verifier::external_body]
fn split_once_char<'a>(s: &'a str, pat: char) -> (r: Option<(&'a str, &'a str)>)
    ensures
        match char_pos(s@, pat) {
            Some(j) => r matches Some((a, b)) && a@ == s@.take(j as int) && b@ == s@.skip(j + 1int),
            None => r is None,
        },
{
    s.split_once(pat)
}

/// Cuts the first token off `s`: hands back what comes before the first
/// `pat` and leaves `s` at what follows it; without a `pat`, hands back all of
/// `s` and leaves it empty.
pub fn strtok<'a>(s: &'a mut &str, pat: char) -> (r: &'a str)
    ensures
        match char_pos(old(s)@, pat) {
            Some(j) => r@ == old(s)@.take(j as int) && final(s)@ == old(s)@.skip(j + 1int),
            None => r@ == old(s)@ && final(s)@ == Seq::<char>::empty(),
        },
{
    match split_once_char(*s, pat) {
        Some((prefix, rest)) => {
            *s = rest;
            prefix
        },
        None => {
            let prefix = *s;
            *s = "";
            proof {
                reveal_strlit("");
            }
            prefix
        },
    }
}

} // verus!
