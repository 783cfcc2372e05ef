//! Discrete double theories: a finite category read as a vocabulary of types.
//!
//! Objects of the category are object types and morphisms are morphism types;
//! the basic types are the generators. The tabulator extension adds object
//! types built from morphism types, so that relations can be typed.

use vstd::prelude::*;

use crate::assoc::{find_key, keys_unique, lemma_push_unique, lemma_to_map_at, lemma_to_map_dom, to_map};
use crate::category::{Category, FgCategory};
use crate::fin_category::{FinCategory, FinHom};
use crate::ident::Ident;

verus! {

/// A discrete double theory, generated by a finite category.
pub struct DiscreteDblTheory<V, E> {
    category: FinCategory<V, E>,
}

impl<V, E> DiscreteDblTheory<V, E> {
    /// The category whose objects and morphisms are the theory's types.
    pub closed spec fn cat(&self) -> FinCategory<V, E> {
        self.category
    }
}

impl<V: Ident, E: Ident> DiscreteDblTheory<V, E> {
    /// Adopts a finite category wholesale as a theory.
    pub fn from(category: FinCategory<V, E>) -> (r: Self)
        ensures
            r.cat() == category,
    {
        DiscreteDblTheory { category }
    }

    /// The underlying category.
    pub fn category(&self) -> (r: &FinCategory<V, E>)
        ensures
            *r == self.cat(),
    {
        &self.category
    }

    /// Is `x` an object type of the theory?
    pub fn has_ob_type(&self, x: &V) -> (r: bool)
        requires
            self.cat().wf(),
        ensures
            r == self.cat().has_ob_spec(*x),
    {
        self.category.has_ob(x)
    }

    /// Is `m` a morphism type of the theory?
    pub fn has_mor_type(&self, m: &FinHom<V, E>) -> (r: bool)
        requires
            self.cat().wf(),
        ensures
            r == self.cat().has_hom_spec(*m),
    {
        self.category.has_hom(m)
    }

    /// Source of a morphism type: the domain of the morphism.
    pub fn src(&self, m: &FinHom<V, E>) -> (r: V)
        requires
            self.cat().wf(),
            self.cat().ends_defined(*m),
        ensures
            r == self.cat().dom_spec(*m),
    {
        self.category.dom(m)
    }

    /// Target of a morphism type: the codomain of the morphism.
    pub fn tgt(&self, m: &FinHom<V, E>) -> (r: V)
        requires
            self.cat().wf(),
            self.cat().ends_defined(*m),
        ensures
            r == self.cat().cod_spec(*m),
    {
        self.category.cod(m)
    }

    /// Composite of two morphism types, as in the category.
    pub fn compose_types(&self, m: FinHom<V, E>, n: FinHom<V, E>) -> (r: FinHom<V, E>)
        requires
            self.cat().wf(),
            self.cat().composable(m, n),
        ensures
            r == self.cat().compose2_spec(m, n),
    {
        self.category.compose2(m, n)
    }

    /// The basic object types: the object generators.
    pub fn basic_ob_types(&self) -> (r: Vec<V>)
        requires
            self.cat().wf(),
        ensures
            r@ == self.cat().ob_seq(),
    {
        self.category.ob_generators()
    }

    /// The basic morphism types: the morphism generators.
    pub fn basic_mor_types(&self) -> (r: Vec<FinHom<V, E>>)
        requires
            self.cat().wf(),
        ensures
            r@ == self.cat().hom_generators_spec(),
    {
        self.category.hom_generators()
    }
}

/// Object type in a discrete tabulator theory.
#[derive(Debug, PartialEq, Eq)]
pub enum TabObType<V, E> {
    /// Basic or generating object type.
    Basic(V),
    /// Tabulator of a morphism type.
    Tabulator(Box<TabMorType<V, E>>),
}

/// Morphism type in a discrete tabulator theory.
#[derive(Debug, PartialEq, Eq)]
pub enum TabMorType<V, E> {
    /// Basic or generating morphism type.
    Basic(E),
    /// Hom type on an object type.
    Hom(Box<TabObType<V, E>>),
}

/// A discrete double theory with tabulators.
///
/// Basic object types are named by `V` and basic morphism types by `E`; each
/// basic morphism type has a source and a target, which may be any object
/// types, tabulators included.
pub struct DiscreteTabTheory<V, E> {
    ob_types: Vec<V>,
    mor_types: Vec<(E, (TabObType<V, E>, TabObType<V, E>))>,
}

impl<V, E> DiscreteTabTheory<V, E> {
    /// Basic object types, in order of insertion.
    pub closed spec fn ob_type_seq(&self) -> Seq<V> {
        self.ob_types@
    }

    /// Basic morphism types, in order of insertion.
    pub closed spec fn mor_type_seq(&self) -> Seq<E> {
        self.mor_types@.map_values(|p: (E, (TabObType<V, E>, TabObType<V, E>))| p.0)
    }

    /// Source and target of each basic morphism type.
    pub closed spec fn mor_type_ends(&self) -> Map<E, (TabObType<V, E>, TabObType<V, E>)> {
        to_map(self.mor_types@)
    }

    /// Each basic type is recorded once.
    pub closed spec fn wf(&self) -> bool {
        &&& self.ob_types@.no_duplicates()
        &&& keys_unique(self.mor_types@)
    }
}

impl<V: Ident, E: Ident> Default for DiscreteTabTheory<V, E> {
    /// The theory with no basic types.
    fn default() -> (r: Self)
        ensures
            r.wf(),
            r.ob_type_seq() == Seq::<V>::empty(),
            r.mor_type_seq() == Seq::<E>::empty(),
            r.mor_type_ends() == Map::<E, (TabObType<V, E>, TabObType<V, E>)>::empty(),
    {
        DiscreteTabTheory::new()
    }
}

impl<V: Ident, E: Ident> DiscreteTabTheory<V, E> {
    /// The theory with no basic types.
    pub fn new() -> (r: Self)
        ensures
            r.wf(),
            r.ob_type_seq() == Seq::<V>::empty(),
            r.mor_type_seq() == Seq::<E>::empty(),
            r.mor_type_ends() == Map::<E, (TabObType<V, E>, TabObType<V, E>)>::empty(),
    {
        let r = DiscreteTabTheory { ob_types: Vec::new(), mor_types: Vec::new() };
        assert(r.mor_type_seq() =~= Seq::<E>::empty());
        r
    }

    /// Adds a basic object type, returning whether it is new.
    pub fn add_ob_type(&mut self, v: V) -> (r: bool)
        requires
            old(self).wf(),
        ensures
            final(self).wf(),
            r == !old(self).ob_type_seq().contains(v),
            final(self).ob_type_seq() == (if r {
                old(self).ob_type_seq().push(v)
            } else {
                old(self).ob_type_seq()
            }),
            final(self).mor_type_seq() == old(self).mor_type_seq(),
            final(self).mor_type_ends() == old(self).mor_type_ends(),
    {
        let mut i: usize = 0;
        while i < self.ob_types.len()
            invariant
                i <= self.ob_types@.len(),
                *self == *old(self),
                self.wf(),
                forall|j: int| 0 <= j < i ==> self.ob_types@[j] != v,
            decreases self.ob_types@.len() - i,
        {
            if self.ob_types[i].same(&v) {
                return false;
            }
            i = i + 1;
        }
        assert(!self.ob_types@.contains(v));
        self.ob_types.push(v);
        true
    }

    /// Adds a basic morphism type from `src` to `tgt`, returning whether it
    /// is new. A morphism type already present is left as it was.
    pub fn add_mor_type(&mut self, e: E, src: TabObType<V, E>, tgt: TabObType<V, E>) -> (r: bool)
        requires
            old(self).wf(),
        ensures
            final(self).wf(),
            r == !old(self).mor_type_ends().contains_key(e),
            final(self).mor_type_seq() == (if r {
                old(self).mor_type_seq().push(e)
            } else {
                old(self).mor_type_seq()
            }),
            final(self).mor_type_ends() == (if r {
                old(self).mor_type_ends().insert(e, (src, tgt))
            } else {
                old(self).mor_type_ends()
            }),
            final(self).ob_type_seq() == old(self).ob_type_seq(),
    {
        proof {
            lemma_to_map_dom(self.mor_types@, e);
        }
        match find_key(&self.mor_types, &e) {
            Some(_) => false,
            None => {
                proof {
                    lemma_push_unique(self.mor_types@, e, (src, tgt));
                }
                self.mor_types.push((e, (src, tgt)));
                assert(self.mor_type_seq() =~= old(self).mor_type_seq().push(e));
                true
            },
        }
    }

    /// The hom type, or identity proarrow type, on an object type.
    pub fn hom_type(&self, x: TabObType<V, E>) -> (r: TabMorType<V, E>)
        ensures
            r == TabMorType::Hom(Box::new(x)),
    {
        TabMorType::Hom(Box::new(x))
    }

    /// The tabulator of a morphism type, as an object type.
    pub fn tabulator(&self, m: TabMorType<V, E>) -> (r: TabObType<V, E>)
        ensures
            r == TabObType::Tabulator(Box::new(m)),
    {
        TabObType::Tabulator(Box::new(m))
    }

    /// Source and target of a basic morphism type, if it exists.
    pub fn mor_type_ends_of(&self, e: &E) -> (r: Option<&(TabObType<V, E>, TabObType<V, E>)>)
        requires
            self.wf(),
        ensures
            r is Some <==> self.mor_type_ends().contains_key(*e),
            r is Some ==> *(r->0) == self.mor_type_ends()[*e],
    {
        proof {
            lemma_to_map_dom(self.mor_types@, *e);
        }
        match find_key(&self.mor_types, e) {
            Some(i) => {
                proof {
                    lemma_to_map_at(self.mor_types@, i as int);
                }
                Some(&self.mor_types[i].1)
            },
            None => None,
        }
    }

    /// The basic object types, in order of insertion.
    pub fn basic_ob_types(&self) -> (r: Vec<TabObType<V, E>>)
        ensures
            r@ == self.ob_type_seq().map_values(|v: V| TabObType::<V, E>::Basic(v)),
    {
        let mut r: Vec<TabObType<V, E>> = Vec::new();
        let mut i: usize = 0;
        while i < self.ob_types.len()
            invariant
                i <= self.ob_types@.len(),
                r@ == self.ob_type_seq().take(i as int).map_values(
                    |v: V| TabObType::<V, E>::Basic(v),
                ),
            decreases self.ob_types@.len() - i,
        {
            r.push(TabObType::Basic(self.ob_types[i]));
            i = i + 1;
            assert(r@ =~= self.ob_type_seq().take(i as int).map_values(
                |v: V| TabObType::<V, E>::Basic(v),
            ));
        }
        assert(self.ob_type_seq().take(i as int) =~= self.ob_type_seq());
        r
    }

    /// The basic morphism types, in order of insertion.
    pub fn basic_mor_types(&self) -> (r: Vec<TabMorType<V, E>>)
        ensures
            r@ == self.mor_type_seq().map_values(|e: E| TabMorType::<V, E>::Basic(e)),
    {
        let mut r: Vec<TabMorType<V, E>> = Vec::new();
        let mut i: usize = 0;
        while i < self.mor_types.len()
            invariant
                i <= self.mor_types@.len(),
                r@ == self.mor_type_seq().take(i as int).map_values(
                    |e: E| TabMorType::<V, E>::Basic(e),
                ),
            decreases self.mor_types@.len() - i,
        {
            r.push(TabMorType::Basic(self.mor_types[i].0));
            i = i + 1;
            assert(r@ =~= self.mor_type_seq().take(i as int).map_values(
                |e: E| TabMorType::<V, E>::Basic(e),
            ));
        }
        assert(self.mor_type_seq().take(i as int) =~= self.mor_type_seq());
        r
    }
}

} // verus!
