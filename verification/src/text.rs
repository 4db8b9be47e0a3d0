//! Small string helpers: splitting at the first separator, and the greeting
//! handed across the C boundary.
use vstd::prelude::*;
use vstd::string::StrSliceExecFns;

verus! {

/// Splits `s` around the first occurrence of `sep`: the text before it and
/// the text after it, or `None` when `sep` does not occur.
pub fn split(s: &str, sep: char) -> (r: Option<(&str, &str)>)
    ensures
        r is None <==> !s@.contains(sep),
        r matches Some((before, after)) ==> {
            &&& s@ == before@ + seq![sep] + after@
            &&& !before@.contains(sep)
        },
{
    let n = s.unicode_len();
    let mut i: usize = 0;
    while i < n
        invariant
            n == s@.len(),
            i <= n,
            forall|j: int| 0 <= j < i ==> s@[j] != sep,
        decreases n - i,
    {
        if s.get_char(i) == sep {
            let before = s.substring_char(0, i);
            let after = s.substring_char(i + 1, n);
            assert(s@ =~= before@ + seq![sep] + after@);
            assert(!before@.contains(sep)) by {
                assert forall|j: int| 0 <= j < before@.len() implies before@[j] != sep by {
                    assert(before@[j] == s@[j]);
                }
            }
            return Some((before, after));
        }
        i = i + 1;
    }
    assert(!s@.contains(sep));
    None
}

/// The greeting for `name`: `hello <name>!`.
pub fn greeting(name: &str) -> (r: String)
    ensures
        r@ == "hello "@ + name@ + "!"@,
{
    let mut s = String::from_str("hello ");
    s.append(name);
    s.append("!");
    s
}

} // verus!
