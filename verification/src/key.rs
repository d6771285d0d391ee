//! Key equality for the trie. A trie key carries its own equality relation,
//! stated as a spec function and decided by an executable comparison whose
//! contract is exact, so that every contract over keys says something for
//! every key type the library accepts. Implementations are given here for
//! plain string keys and for composite keys (a collection of alias strings
//! all naming the same entity, equal when the alias lists coincide).

use vstd::prelude::*;
use vstd::string::StrSliceExecFns;

verus! {

/// A type usable as a trie key: cheaply duplicable, with a reflexive
/// equality relation `key_eq_spec` that the executable `key_eq` decides
/// exactly.
pub trait TrieKey: Sized + Copy {
    /// The equality relation the trie groups children by.
    spec fn key_eq_spec(self, other: Self) -> bool;

    /// Every key equals itself.
    proof fn lemma_key_eq_reflexive(x: Self)
        ensures
            x.key_eq_spec(x),
    ;

    /// Decides `key_eq_spec`.
    fn key_eq(self, other: Self) -> (r: bool)
        ensures
            r == self.key_eq_spec(other),
    ;
}

/// Character-for-character string equality, decided without any assumed
/// specification.
fn str_eq(a: &str, b: &str) -> (r: bool)
    ensures
        r == (a@ == b@),
{
    let n: usize = a.unicode_len();
    if n != b.unicode_len() {
        return false;
    }
    let mut i: usize = 0;
    while i < n
        invariant
            0 <= i <= n,
            n == a@.len(),
            n == b@.len(),
            forall|j: int| 0 <= j < i ==> a@[j] == b@[j],
        decreases n - i,
    {
        if a.get_char(i) != b.get_char(i) {
            return false;
        }
        i += 1;
    }
    assert(a@ =~= b@);
    true
}

impl<'a> TrieKey for &'a str {
    /// String keys are equal when they hold the same characters.
    open spec fn key_eq_spec(self, other: Self) -> bool {
        self@ == other@
    }

    proof fn lemma_key_eq_reflexive(x: Self) {
    }

    fn key_eq(self, other: Self) -> (r: bool) {
        str_eq(self, other)
    }
}

impl<'a, 'b> TrieKey for &'a Vec<&'b str> {
    /// Composite alias keys are equal when their alias lists coincide,
    /// alias for alias.
    open spec fn key_eq_spec(self, other: Self) -> bool {
        self@.map_values(|s: &str| s@) == other@.map_values(|s: &str| s@)
    }

    proof fn lemma_key_eq_reflexive(x: Self) {
    }

    fn key_eq(self, other: Self) -> (r: bool) {
        let n: usize = self.len();
        if n != other.len() {
            assert(self@.map_values(|s: &str| s@).len() != other@.map_values(
                |s: &str| s@,
            ).len());
            return false;
        }
        let mut i: usize = 0;
        while i < n
            invariant
                0 <= i <= n,
                n == self@.len(),
                n == other@.len(),
                forall|j: int| 0 <= j < i ==> self@[j]@ == other@[j]@,
            decreases n - i,
        {
            if !str_eq(self[i], other[i]) {
                assert(self@.map_values(|s: &str| s@)[i as int] != other@.map_values(
                    |s: &str| s@,
                )[i as int]);
                return false;
            }
            i += 1;
        }
        assert(self@.map_values(|s: &str| s@) =~= other@.map_values(|s: &str| s@));
        true
    }
}

} // verus!
