//! A prefix-membership helper for string keys: `chunk` asks whether one
//! string occurs among the non-empty prefixes of another.

use vstd::prelude::*;
use vstd::string::StrSliceExecFns;

verus! {

/// `target` is one of the non-empty prefixes of `s`: its length runs from 1
/// up to the full length of `s`, and it coincides with the front of `s`.
pub open spec fn nonempty_prefix_of(target: Seq<char>, s: Seq<char>) -> bool {
    1 <= target.len() <= s.len() && target == s.subrange(0, target.len() as int)
}

/// Enumerates (conceptually) every non-empty prefix of `input`, from length 1
/// to the whole string, and reports whether `compared` is one of them. The
/// empty string is rejected, and so is any string longer than `input`.
pub fn chunk(input: &str, compared: &str) -> (r: bool)
    ensures
        r == nonempty_prefix_of(compared@, input@),
{
    let m: usize = compared.unicode_len();
    let n: usize = input.unicode_len();
    if m == 0 || m > n {
        return false;
    }
    let mut i: usize = 0;
    while i < m
        invariant
            0 <= i <= m,
            1 <= m <= n,
            m == compared@.len(),
            n == input@.len(),
            forall|j: int| 0 <= j < i ==> input@[j] == compared@[j],
        decreases m - i,
    {
        if input.get_char(i) != compared.get_char(i) {
            assert(!nonempty_prefix_of(compared@, input@)) by {
                assert(input@.subrange(0, m as int)[i as int] == input@[i as int]);
            }
            return false;
        }
        i += 1;
    }
    assert(compared@ =~= input@.subrange(0, m as int));
    true
}

/// Every non-empty string counts among its own prefixes: the longest
/// enumerated prefix is the full string itself.
pub proof fn lemma_full_string_is_prefix(s: Seq<char>)
    requires
        s.len() > 0,
    ensures
        nonempty_prefix_of(s, s),
{
    assert(s =~= s.subrange(0, s.len() as int));
}

/// The empty string is never a match: only non-empty prefixes are enumerated.
pub proof fn lemma_empty_is_no_prefix(s: Seq<char>)
    ensures
        !nonempty_prefix_of(Seq::<char>::empty(), s),
{
}

} // verus!
