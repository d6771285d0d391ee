//! The trie node itself: a recursive associative tree. Each node holds an
//! optional payload and a list of keyed children with pairwise-distinct keys,
//! standing in for a map from keys to child nodes.

use vstd::prelude::*;
use crate::key::TrieKey;

verus! {

/// A node of an associative tree. `value` is the payload carried by this
/// node (`None` for a root or purely structural node); `children` associates
/// each key with one direct child. A well-formed node (`wf`) never holds two
/// children under keys that compare equal, so the list behaves as a map.
/// The children sit in a plain list scanned linearly: a lookup costs time
/// proportional to the number of direct children, where a hashed map would
/// give expected constant time, in exchange for contracts that pin every
/// operation down exactly.
#[derive(Debug, PartialEq)]
pub struct TrieNode<K, V> {
    pub value: Option<V>,
    pub children: Vec<(K, TrieNode<K, V>)>,
}

impl<K: TrieKey, V: Clone> TrieNode<K, V> {
    /// Some direct child of `self` sits under a key equal to `k`.
    pub open spec fn has_key(self, k: K) -> bool {
        exists|i: int|
            0 <= i < self.children@.len() && (#[trigger] self.children@[i]).0.key_eq_spec(k)
    }

    /// Map-likeness: no two children of this node, nor of any descendant,
    /// sit under keys that compare equal.
    pub open spec fn wf(self) -> bool
        decreases self,
    {
        &&& forall|i: int, j: int|
            #![trigger self.children@[i], self.children@[j]]
            0 <= i < j < self.children@.len() ==> !self.children@[i].0.key_eq_spec(
                self.children@[j].0,
            )
        &&& forall|i: int|
            0 <= i < self.children@.len() ==> (#[trigger] self.children@[i]).1.wf()
    }

    /// The shape insertion gives a freshly attached child: it carries exactly
    /// the inserted payload and has no children of its own.
    pub open spec fn is_fresh_leaf(self, v: V) -> bool {
        self.value == Some(v) && self.children@.len() == 0
    }

    /// `self` is a deep copy of `orig`: same shape, identical keys, and each
    /// payload a possible output of `V::clone` on the corresponding original.
    pub open spec fn is_clone_of(self, orig: Self) -> bool
        decreases orig,
    {
        &&& match (orig.value, self.value) {
            (Option::None, Option::None) => true,
            (Option::Some(a), Option::Some(b)) => cloned::<V>(a, b),
            _ => false,
        }
        &&& self.children@.len() == orig.children@.len()
        &&& forall|i: int|
            0 <= i < orig.children@.len() ==> (#[trigger] self.children@[i]).0
                == orig.children@[i].0 && self.children@[i].1.is_clone_of(orig.children@[i].1)
    }
    /// Builds the canonical fresh node: no payload and no children.
    pub fn new() -> (r: TrieNode<K, V>)
        ensures
            r.value is None,
            r.children@.len() == 0,
            r.wf(),
    {
        TrieNode { value: None, children: Vec::new() }
    }

    /// True iff `self` has a direct child keyed by `key`; no descent into
    /// grandchildren.
    pub fn contains(&self, key: K) -> (r: bool)
        ensures
            r == self.has_key(key),
    {
        let mut i: usize = 0;
        while i < self.children.len()
            invariant
                0 <= i <= self.children@.len(),
                forall|j: int|
                    0 <= j < i ==> !(#[trigger] self.children@[j]).0.key_eq_spec(key),
            decreases self.children@.len() - i,
        {
            if self.children[i].0.key_eq(key) {
                return true;
            }
            i += 1;
        }
        false
    }

    /// Attaches `v` as a fresh leaf child of `self` under `path`. A child
    /// already sitting at an equal key is displaced in place (its whole
    /// subtree included) and handed back; otherwise the new child goes at
    /// the end and nothing is returned.
    pub fn add(&mut self, path: K, v: V) -> (replaced: Option<TrieNode<K, V>>)
        ensures
            final(self).value == old(self).value,
            ({
                if old(self).has_key(path) {
                    exists|i: int|
                        {
                            &&& 0 <= i < old(self).children@.len()
                            &&& (#[trigger] old(self).children@[i]).0.key_eq_spec(path)
                            &&& forall|j: int|
                                0 <= j < i ==> !(#[trigger] old(self).children@[j]).0.key_eq_spec(
                                    path,
                                )
                            &&& replaced == Some(old(self).children@[i].1)
                            &&& final(self).children@.len() == old(self).children@.len()
                            &&& forall|j: int|
                                0 <= j < final(self).children@.len() && j != i
                                    ==> (#[trigger] final(self).children@[j]) == old(self).children@[j]
                            &&& final(self).children@[i].0 == old(self).children@[i].0
                            &&& final(self).children@[i].1.is_fresh_leaf(v)
                        }
                } else {
                    &&& replaced is None
                    &&& final(self).children@.len() == old(self).children@.len() + 1
                    &&& forall|j: int|
                        0 <= j < old(self).children@.len()
                            ==> (#[trigger] final(self).children@[j]) == old(self).children@[j]
                    &&& final(self).children@.last().0 == path
                    &&& final(self).children@.last().1.is_fresh_leaf(v)
                }
            }),
            final(self).has_key(path),
            old(self).wf() ==> final(self).wf(),
    {
        let mut i: usize = 0;
        while i < self.children.len()
            invariant
                0 <= i <= self.children@.len(),
                *self == *old(self),
                forall|j: int|
                    0 <= j < i ==> !(#[trigger] self.children@[j]).0.key_eq_spec(path),
            decreases self.children@.len() - i,
        {
            if self.children[i].0.key_eq(path) {
                let leaf = TrieNode::<K, V> { value: Some(v), children: Vec::new() };
                let prior = self.children.remove(i);
                self.children.insert(i, (prior.0, leaf));
                proof {
                    assert(self.children@ =~= old(self).children@.update(
                        i as int,
                        (old(self).children@[i as int].0, self.children@[i as int].1),
                    ));
                    assert(self.children@[i as int].1.wf());
                    if old(self).wf() {
                        assert(self.wf());
                    }
                }
                return Some(prior.1);
            }
            i += 1;
        }
        self.children.push((path, TrieNode::<K, V> { value: Some(v), children: Vec::new() }));
        proof {
            K::lemma_key_eq_reflexive(path);
            assert(self.children@.last().1.wf());
            if old(self).wf() {
                assert(self.wf());
            }
        }
        None
    }

    /// Deep-copies a whole subtree: keys are reproduced exactly, payloads
    /// through `V::clone`.
    fn clone_node(&self) -> (res: TrieNode<K, V>)
        ensures
            res.is_clone_of(*self),
        decreases *self,
    {
        let value = match &self.value {
            Some(v) => Some(v.clone()),
            None => None,
        };
        let mut kids: Vec<(K, TrieNode<K, V>)> = Vec::new();
        let mut i: usize = 0;
        while i < self.children.len()
            invariant
                0 <= i <= self.children@.len(),
                kids@.len() == i,
                forall|j: int|
                    0 <= j < i ==> (#[trigger] kids@[j]).0 == self.children@[j].0
                        && kids@[j].1.is_clone_of(self.children@[j].1),
            decreases self.children@.len() - i,
        {
            let copy = self.children[i].1.clone_node();
            kids.push((self.children[i].0, copy));
            i += 1;
        }
        TrieNode { value, children: kids }
    }

    /// What a predicate search hands out, witnessed by the indices it picked:
    /// `picks` lists, in increasing order, exactly the children whose key the
    /// predicate accepted, and `out` holds one deep copy per picked child; on
    /// every child left out the predicate answered false.
    pub open spec fn gathered_by<F: Fn(K) -> bool>(
        self,
        test: F,
        out: Seq<TrieNode<K, V>>,
        picks: Seq<int>,
    ) -> bool {
        &&& picks.len() == out.len()
        &&& forall|j: int| 0 <= j < picks.len() ==> 0 <= #[trigger] picks[j] < self.children@.len()
        &&& forall|j1: int, j2: int|
            0 <= j1 < j2 < picks.len() ==> #[trigger] picks[j1] < #[trigger] picks[j2]
        &&& forall|j: int|
            0 <= j < picks.len() ==> call_ensures(test, (self.children@[#[trigger] picks[j]].0,), true)
        &&& forall|j: int|
            0 <= j < out.len() ==> (#[trigger] out[j]).is_clone_of(self.children@[picks[j]].1)
        &&& forall|i: int|
            0 <= i < self.children@.len() && !picks.contains(i) ==> call_ensures(
                test,
                ((#[trigger] self.children@[i]).0,),
                false,
            )
    }

    /// `n` is a deep copy of some direct child of `self` whose key satisfies
    /// the pure test `p`.
    pub open spec fn copies_match_of(self, p: spec_fn(K) -> bool, n: TrieNode<K, V>) -> bool {
        exists|i: int|
            0 <= i < self.children@.len() && p((#[trigger] self.children@[i]).0)
                && n.is_clone_of(self.children@[i].1)
    }

    /// True iff the predicate accepts the key of at least one direct child.
    /// The predicate's answers are pinned down by its own postcondition: a
    /// true result exhibits a child key the predicate accepted, a false
    /// result means it rejected every child key.
    pub fn contains_where<F: Fn(K) -> bool>(&self, test: F) -> (r: bool)
        requires
            forall|i: int|
                0 <= i < self.children@.len() ==> call_requires(
                    test,
                    ((#[trigger] self.children@[i]).0,),
                ),
        ensures
            r ==> exists|i: int|
                0 <= i < self.children@.len() && call_ensures(
                    test,
                    ((#[trigger] self.children@[i]).0,),
                    true,
                ),
            !r ==> forall|i: int|
                0 <= i < self.children@.len() ==> call_ensures(
                    test,
                    ((#[trigger] self.children@[i]).0,),
                    false,
                ),
    {
        let mut i: usize = 0;
        while i < self.children.len()
            invariant
                0 <= i <= self.children@.len(),
                forall|k: int|
                    0 <= k < self.children@.len() ==> call_requires(
                        test,
                        ((#[trigger] self.children@[k]).0,),
                    ),
                forall|j: int|
                    0 <= j < i ==> call_ensures(test, ((#[trigger] self.children@[j]).0,), false),
            decreases self.children@.len() - i,
        {
            if test(self.children[i].0) {
                return true;
            }
            i += 1;
        }
        false
    }

    /// Gathers an owned duplicate of every direct child whose key the
    /// predicate accepts, in the order the children sit in the node; an empty
    /// vector, not an error, when nothing matches. The witness `picks` in the
    /// postcondition records which children were taken, each at most once.
    pub fn get_where<F: Fn(K) -> bool>(&self, test: F) -> (r: Vec<TrieNode<K, V>>)
        requires
            forall|i: int|
                0 <= i < self.children@.len() ==> call_requires(
                    test,
                    ((#[trigger] self.children@[i]).0,),
                ),
        ensures
            exists|picks: Seq<int>| self.gathered_by(test, r@, picks),
    {
        let ghost mut picks: Seq<int> = Seq::empty();
        let mut r: Vec<TrieNode<K, V>> = Vec::new();
        let mut i: usize = 0;
        while i < self.children.len()
            invariant
                0 <= i <= self.children@.len(),
                forall|k: int|
                    0 <= k < self.children@.len() ==> call_requires(
                        test,
                        ((#[trigger] self.children@[k]).0,),
                    ),
                picks.len() == r@.len(),
                forall|j: int| 0 <= j < picks.len() ==> 0 <= #[trigger] picks[j] < i,
                forall|j1: int, j2: int|
                    0 <= j1 < j2 < picks.len() ==> #[trigger] picks[j1] < #[trigger] picks[j2],
                forall|j: int|
                    0 <= j < picks.len() ==> call_ensures(
                        test,
                        (self.children@[#[trigger] picks[j]].0,),
                        true,
                    ),
                forall|j: int|
                    0 <= j < r@.len() ==> (#[trigger] r@[j]).is_clone_of(
                        self.children@[picks[j]].1,
                    ),
                forall|k: int|
                    0 <= k < i && !picks.contains(k) ==> call_ensures(
                        test,
                        ((#[trigger] self.children@[k]).0,),
                        false,
                    ),
            decreases self.children@.len() - i,
        {
            if test(self.children[i].0) {
                r.push(self.children[i].1.clone_node());
                proof {
                    let prior = picks;
                    picks = picks.push(i as int);
                    assert(picks[picks.len() - 1] == i as int);
                    assert forall|k: int| 0 <= k < i + 1 && !picks.contains(k) implies call_ensures(
                        test,
                        (self.children@[k].0,),
                        false,
                    ) by {
                        if k < i {
                            assert(!prior.contains(k)) by {
                                if prior.contains(k) {
                                    let idx = choose|idx: int|
                                        0 <= idx < prior.len() && prior[idx] == k;
                                    assert(picks[idx] == k);
                                }
                            }
                        }
                    }
                }
            }
            i += 1;
        }
        proof {
            assert(self.gathered_by(test, r@, picks));
        }
        r
    }

    /// Hands back an owned duplicate of the child subtree at `key`, if one is
    /// there; the original structure is left untouched, so the copy and the
    /// trie evolve independently afterwards.
    pub fn get(&self, key: K) -> (r: Option<TrieNode<K, V>>)
        ensures
            match r {
                Option::None => !self.has_key(key),
                Option::Some(n) => {
                    &&& self.has_key(key)
                    &&& exists|i: int|
                        {
                            &&& 0 <= i < self.children@.len()
                            &&& (#[trigger] self.children@[i]).0.key_eq_spec(key)
                            &&& forall|j: int|
                                0 <= j < i ==> !(#[trigger] self.children@[j]).0.key_eq_spec(key)
                            &&& n.is_clone_of(self.children@[i].1)
                        }
                },
            },
    {
        let mut i: usize = 0;
        while i < self.children.len()
            invariant
                0 <= i <= self.children@.len(),
                forall|j: int|
                    0 <= j < i ==> !(#[trigger] self.children@[j]).0.key_eq_spec(key),
            decreases self.children@.len() - i,
        {
            if self.children[i].0.key_eq(key) {
                return Some(self.children[i].1.clone_node());
            }
            i += 1;
        }
        None
    }
}

/// Insert-then-get round trip: a node that insertion has just given its one
/// child — attached at key `k`, holding payload `v`, with no grandchildren —
/// yields from a lookup of `k` exactly a copy of that fresh leaf: the copy
/// has no children and carries a payload `V::clone` could have produced from
/// `v` (for a `V` whose clone preserves equality, the payload `v` itself).
pub proof fn lemma_insert_then_get<K: TrieKey, V: Clone>(
    post: TrieNode<K, V>,
    k: K,
    v: V,
    got: TrieNode<K, V>,
)
    requires
        post.children@.len() == 1,
        post.children@[0].0 == k,
        post.children@[0].1.is_fresh_leaf(v),
        got.is_clone_of(post.children@[0].1),
    ensures
        post.has_key(k),
        got.children@.len() == 0,
        got.value matches Some(w) && cloned::<V>(v, w),
{
    K::lemma_key_eq_reflexive(k);
    assert(post.children@[0].0.key_eq_spec(k));
}

/// Predicate search, existence half: for a predicate that answers like the
/// pure test `p`, the two guarantees `contains_where` gives about its result
/// collapse to an exact criterion — true iff some child key satisfies `p`.
pub proof fn lemma_contains_where_exact<K: TrieKey, V: Clone, F: Fn(K) -> bool>(
    t: TrieNode<K, V>,
    test: F,
    p: spec_fn(K) -> bool,
    r: bool,
)
    requires
        forall|k: K, b: bool| call_ensures(test, (k,), b) ==> b == p(k),
        r ==> exists|i: int|
            0 <= i < t.children@.len() && call_ensures(test, ((#[trigger] t.children@[i]).0,), true),
        !r ==> forall|i: int|
            0 <= i < t.children@.len() ==> call_ensures(
                test,
                ((#[trigger] t.children@[i]).0,),
                false,
            ),
    ensures
        r <==> exists|i: int| 0 <= i < t.children@.len() && p((#[trigger] t.children@[i]).0),
{
}

/// Predicate search, collection half: for a predicate that answers like the
/// pure test `p`, the witness `get_where` leaves behind makes its result
/// exact — each gathered node copies some child whose key satisfies `p`, and
/// every child whose key satisfies `p` is represented. The strictly
/// increasing picks take each child at most once, so nothing is duplicated.
pub proof fn lemma_get_where_exact<K: TrieKey, V: Clone, F: Fn(K) -> bool>(
    t: TrieNode<K, V>,
    test: F,
    p: spec_fn(K) -> bool,
    out: Seq<TrieNode<K, V>>,
    picks: Seq<int>,
)
    requires
        forall|k: K, b: bool| call_ensures(test, (k,), b) ==> b == p(k),
        t.gathered_by(test, out, picks),
    ensures
        forall|j: int| 0 <= j < out.len() ==> t.copies_match_of(p, #[trigger] out[j]),
        forall|i: int|
            0 <= i < t.children@.len() && p((#[trigger] t.children@[i]).0) ==> exists|j: int|
                0 <= j < out.len() && out[j].is_clone_of(t.children@[i].1),
{
    assert forall|j: int| 0 <= j < out.len() implies t.copies_match_of(p, #[trigger] out[j]) by {
        let i = picks[j];
        assert(call_ensures(test, (t.children@[i].0,), true));
        assert(p(t.children@[i].0) && out[j].is_clone_of(t.children@[i].1));
    }
    assert forall|i: int|
        0 <= i < t.children@.len() && p((#[trigger] t.children@[i]).0) implies exists|j: int|
        0 <= j < out.len() && out[j].is_clone_of(t.children@[i].1) by {
        if !picks.contains(i) {
            assert(call_ensures(test, (t.children@[i].0,), false));
        }
        let j = choose|j: int| 0 <= j < picks.len() && picks[j] == i;
        assert(out[j].is_clone_of(t.children@[i].1));
    }
}

impl<K: TrieKey, V: Clone> Clone for TrieNode<K, V> {
    /// Cloning a node deep-copies the whole subtree, exactly as `get` does
    /// for one child.
    fn clone(&self) -> (res: Self)
        ensures
            res.is_clone_of(*self),
    {
        self.clone_node()
    }
}

} // verus!
