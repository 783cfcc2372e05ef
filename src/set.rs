//! Sets, finite and infinite.
//!
//! Interfaces that let sets be treated generically, and two finite sets: the
//! skeletal set `{0, ..., n - 1}` and a set backed by a hash set.

use std::collections::HashSet;
use std::hash::Hash;
use std::ops::Range;

use vstd::prelude::*;
use vstd::std_specs::hash::{obeys_key_model, spec_hash_keys_iter};
use vstd::std_specs::iter::IteratorSpec;

verus! {

/// A set: a collection that can tell whether a value belongs to it.
///
/// Sets are not assumed to be finite. Elements can be compared for equality,
/// and that is the only thing done with them.
pub trait MemberSet {
    /// Type of elements of the set.
    type Elem: Eq;

    /// The set is in a state its operations are specified for.
    spec fn wf(&self) -> bool;

    /// Membership, as a mathematical predicate.
    spec fn has(&self, x: Self::Elem) -> bool;

    /// Does the set contain the element `x`?
    fn contains(&self, x: &Self::Elem) -> (r: bool)
        requires
            self.wf(),
        ensures
            r == self.has(*x),
    ;
}

/// A finite set: it knows its size and can list its elements.
///
/// Elements are assumed cheap to copy, such as integers or interned strings,
/// so they are listed by value.
pub trait FinSet: MemberSet {
    /// The elements, as a finite mathematical set.
    spec fn elems(&self) -> Set<Self::Elem>;

    /// Membership agrees with the elements, and there are finitely many.
    proof fn lemma_elems(&self)
        requires
            self.wf(),
        ensures
            self.elems().finite(),
            forall|x: Self::Elem| self.has(x) <==> #[trigger] self.elems().contains(x),
    ;

    /// The elements, each once, in an order fixed for a given set.
    fn iter(&self) -> (r: Vec<Self::Elem>)
        requires
            self.wf(),
        ensures
            r@.no_duplicates(),
            r@.to_set() == self.elems(),
    ;

    /// The size of the finite set.
    fn len(&self) -> (r: usize)
        requires
            self.wf(),
        ensures
            r == self.elems().len(),
    ;

    /// Is the set empty?
    fn is_empty(&self) -> (r: bool)
        requires
            self.wf(),
        ensures
            r == (self.elems().len() == 0),
    ;
}

/// Listing the elements of a finite set, each once, gives as many values as
/// the set's size: the length of `iter` is `len`.
pub proof fn lemma_listing_len<S: FinSet>(s: &S, xs: Seq<S::Elem>)
    requires
        s.wf(),
        xs.no_duplicates(),
        xs.to_set() == s.elems(),
    ensures
        xs.len() == s.elems().len(),
{
    xs.unique_seq_to_set();
}

/// A skeletal finite set: the set of size `n` has the elements `0..n`.
#[derive(Clone, Copy)]
pub struct SkelFinSet(usize);

impl SkelFinSet {
    /// The number of elements.
    pub closed spec fn size(&self) -> nat {
        self.0 as nat
    }

    /// The elements are the `size()` values below `size()`.
    pub proof fn lemma_size(&self)
        ensures
            self.elems().finite(),
            self.elems().len() == self.size(),
    {
        lemma_usize_range_finite(self.size());
        lemma_skel_len(self.size());
    }

    /// Creates the skeletal finite set of size `n`.
    pub fn new(n: usize) -> (r: Self)
        ensures
            r.size() == n,
    {
        SkelFinSet(n)
    }

    /// Adds the next element, the only one possible, and returns it.
    pub fn insert(&mut self) -> (r: usize)
        requires
            old(self).size() < usize::MAX,
        ensures
            r == old(self).size(),
            final(self).size() == old(self).size() + 1,
    {
        let new = self.0;
        self.0 = self.0 + 1;
        new
    }

    /// Adds the next `n` elements and returns their range.
    pub fn extend(&mut self, n: usize) -> (r: Range<usize>)
        requires
            old(self).size() + n <= usize::MAX,
        ensures
            r.start == old(self).size(),
            r.end == final(self).size(),
            final(self).size() == old(self).size() + n,
    {
        let start = self.0;
        self.0 = self.0 + n;
        start..self.0
    }
}

impl Default for SkelFinSet {
    fn default() -> (r: Self)
        ensures
            r.size() == 0,
    {
        SkelFinSet::new(0)
    }
}

impl MemberSet for SkelFinSet {
    type Elem = usize;

    open spec fn wf(&self) -> bool {
        true
    }

    open spec fn has(&self, x: usize) -> bool {
        x < self.size()
    }

    fn contains(&self, x: &usize) -> (r: bool) {
        *x < self.0
    }
}

impl FinSet for SkelFinSet {
    open spec fn elems(&self) -> Set<usize> {
        Set::new(|x: usize| x < self.size())
    }

    proof fn lemma_elems(&self) {
        lemma_usize_range_finite(self.size());
    }

    fn iter(&self) -> (r: Vec<usize>) {
        let mut r: Vec<usize> = Vec::new();
        let mut i: usize = 0;
        while i < self.0
            invariant
                i <= self.0,
                r@ == Seq::new(i as nat, |j: int| j as usize),
            decreases self.0 - i,
        {
            r.push(i);
            i = i + 1;
            assert(r@ =~= Seq::new(i as nat, |j: int| j as usize));
        }
        assert(r@.to_set() =~= self.elems()) by {
            assert forall|x: usize| self.elems().contains(x) implies r@.contains(x) by {
                assert(r@[x as int] == x);
            }
        }
        r
    }

    fn len(&self) -> (r: usize) {
        proof {
            lemma_skel_len(self.size());
        }
        self.0
    }

    fn is_empty(&self) -> (r: bool) {
        proof {
            lemma_skel_len(self.size());
        }
        self.0 == 0
    }
}

/// The values below `n` form a finite set.
proof fn lemma_usize_range_finite(n: nat)
    ensures
        Set::new(|x: usize| x < n).finite(),
{
    let s = Set::new(|x: usize| x < n);
    let r = Set::range(0, n as int).map(|i: int| i as usize);
    assert(s =~= r) by {
        assert forall|x: usize| s.contains(x) implies r.contains(x) by {
            assert(Set::range(0, n as int).contains(x as int));
        }
    }
    vstd::set_lib::range_set_properties(0, n as int);
    Set::range(0, n as int).lemma_map_finite(|i: int| i as usize);
}

/// The skeletal set of size `n` has `n` elements.
proof fn lemma_skel_len(n: nat)
    requires
        n <= usize::MAX,
    ensures
        Set::new(|x: usize| x < n).len() == n,
    decreases n,
{
    let s = Set::new(|x: usize| x < n);
    lemma_usize_range_finite(n);
    if n > 0 {
        let t = Set::new(|x: usize| x < (n - 1) as nat);
        lemma_skel_len((n - 1) as nat);
        lemma_usize_range_finite((n - 1) as nat);
        assert(s =~= t.insert((n - 1) as usize));
    } else {
        assert(s =~= Set::empty());
    }
}

/// A finite set backed by a hash set.
pub struct HashFinSet<T>(HashSet<T>);

impl<T: Eq + Hash> HashFinSet<T> {
    /// The elements.
    pub closed spec fn contents(&self) -> Set<T> {
        self.0@
    }

    /// Creates a finite set backed by the given hash set.
    pub fn new(hash_set: HashSet<T>) -> (r: Self)
        ensures
            r.contents() == hash_set@,
    {
        HashFinSet(hash_set)
    }

    /// Adds an element, returning whether it is new.
    pub fn insert(&mut self, x: T) -> (r: bool)
        requires
            obeys_key_model::<T>(),
        ensures
            r == !old(self).contents().contains(x),
            final(self).contents() == old(self).contents().insert(x),
    {
        self.0.insert(x)
    }

    /// Adds each of `xs`.
    pub fn extend(&mut self, xs: Vec<T>)
        requires
            obeys_key_model::<T>(),
        ensures
            final(self).contents() == old(self).contents().union(xs@.to_set()),
    {
        let mut xs = xs;
        let ghost all = xs@;
        while xs.len() > 0
            invariant
                obeys_key_model::<T>(),
                xs@ == all.take(xs@.len() as int),
                xs@.len() <= all.len(),
                self.contents() == old(self).contents().union(
                    all.skip(xs@.len() as int).to_set(),
                ),
            decreases xs@.len(),
        {
            let ghost n = xs@.len() as int;
            let x = xs.pop().unwrap();
            self.0.insert(x);
            assert(all.skip(n - 1) =~= all.skip(n).insert(0, x));
            assert(all.skip(n - 1).to_set() =~= all.skip(n).to_set().insert(x)) by {
                assert forall|y: T| all.skip(n - 1).to_set().contains(y) implies all.skip(
                    n,
                ).to_set().insert(x).contains(y) by {
                    let k = choose|k: int| 0 <= k < all.skip(n - 1).len() && #[trigger] all.skip(n - 1)[k] == y;
                    if k > 0 {
                        assert(all.skip(n)[k - 1] == y);
                    }
                }
                assert forall|y: T| all.skip(n).to_set().insert(x).contains(y) implies all.skip(
                    n - 1,
                ).to_set().contains(y) by {
                    if y == x {
                        assert(all.skip(n - 1)[0] == y);
                    } else {
                        let k = choose|k: int| 0 <= k < all.skip(n).len() && #[trigger] all.skip(n)[k] == y;
                        assert(all.skip(n - 1)[k + 1] == y);
                    }
                }
            }
            assert(xs@ =~= all.take(xs@.len() as int));
            assert(self.contents() =~= old(self).contents().union(
                all.skip(xs@.len() as int).to_set(),
            ));
        }
        assert(all.skip(0) =~= all);
    }
}

impl<T: Eq + Hash> Default for HashFinSet<T> {
    fn default() -> (r: Self)
        ensures
            r.contents() == Set::<T>::empty(),
    {
        HashFinSet::new(HashSet::new())
    }
}

impl<T: Eq + Hash> MemberSet for HashFinSet<T> {
    type Elem = T;

    open spec fn wf(&self) -> bool {
        obeys_key_model::<T>()
    }

    open spec fn has(&self, x: T) -> bool {
        self.contents().contains(x)
    }

    fn contains(&self, x: &T) -> (r: bool) {
        self.0.contains(x)
    }
}

impl<T: Eq + Hash + Copy> FinSet for HashFinSet<T> {
    open spec fn elems(&self) -> Set<T> {
        self.contents()
    }

    proof fn lemma_elems(&self) {
        let keys = IteratorSpec::remaining(&spec_hash_keys_iter(&self.0)).unref();
        assert(keys.to_set() == self.0@);
        vstd::seq_lib::seq_to_set_is_finite(keys);
    }

    fn iter(&self) -> (r: Vec<T>) {
        let mut r: Vec<T> = Vec::new();
        for x in it: self.0.iter()
            invariant
                obeys_key_model::<T>(),
                r@ == it.seq().take(it.index() as int).map_values(|k: &T| *k),
        {
            r.push(*x);
        }
        proof {
            let keys = IteratorSpec::remaining(&spec_hash_keys_iter(&self.0));
            assert(keys.unref().to_set() == self.0@);
            assert(r@ =~= keys.unref());
        }
        r
    }

    fn len(&self) -> (r: usize) {
        self.0.len()
    }

    fn is_empty(&self) -> (r: bool) {
        proof {
            self.lemma_elems();
            if self.0@.len() == 0 {
                self.0@.lemma_len0_is_empty();
            }
        }
        self.0.is_empty()
    }
}

} // verus!
