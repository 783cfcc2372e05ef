//! Categories as interfaces: the operations any category-like structure
//! offers, and the extra enumeration a finitely generated one offers.

use vstd::prelude::*;

verus! {

/// A request to compose morphisms: the identity path at an object, or a
/// non-empty sequence of morphisms, composed from left to right.
#[derive(Clone, Debug, PartialEq, Eq)]
pub enum Path<V, M> {
    /// The empty path at an object.
    Id(V),
    /// A non-empty sequence of morphisms, each ending where the next begins.
    Chain(Vec<M>),
}

/// A category: objects, morphisms with a domain and a codomain, identities,
/// and composition.
pub trait Category {
    /// Type of objects.
    type Ob;

    /// Type of morphisms.
    type Hom;

    /// The category is in a state its operations are specified for.
    spec fn inv(&self) -> bool;

    /// Is `x` an object?
    spec fn has_ob_spec(&self, x: Self::Ob) -> bool;

    /// Is `f` a morphism?
    spec fn has_hom_spec(&self, f: Self::Hom) -> bool;

    /// Are the domain and codomain of `f` known?
    spec fn ends_defined(&self, f: Self::Hom) -> bool;

    /// Domain of a morphism.
    spec fn dom_spec(&self, f: Self::Hom) -> Self::Ob;

    /// Codomain of a morphism.
    spec fn cod_spec(&self, f: Self::Hom) -> Self::Ob;

    /// The identity morphism on an object.
    spec fn id_spec(&self, x: Self::Ob) -> Self::Hom;

    /// Can `f` then `g` be composed?
    spec fn composable(&self, f: Self::Hom, g: Self::Hom) -> bool;

    /// The composite of `f` then `g`.
    spec fn compose2_spec(&self, f: Self::Hom, g: Self::Hom) -> Self::Hom;

    /// Can the path be evaluated?
    spec fn path_composable(&self, p: Path<Self::Ob, Self::Hom>) -> bool;

    /// The value of a path.
    spec fn compose_spec(&self, p: Path<Self::Ob, Self::Hom>) -> Self::Hom;

    /// Does the category contain the object `x`?
    fn has_ob(&self, x: &Self::Ob) -> (r: bool)
        requires
            self.inv(),
        ensures
            r == self.has_ob_spec(*x),
    ;

    /// Does the category contain the morphism `f`?
    fn has_hom(&self, f: &Self::Hom) -> (r: bool)
        requires
            self.inv(),
        ensures
            r == self.has_hom_spec(*f),
    ;

    /// Domain of a morphism.
    fn dom(&self, f: &Self::Hom) -> (r: Self::Ob)
        requires
            self.inv(),
            self.ends_defined(*f),
        ensures
            r == self.dom_spec(*f),
    ;

    /// Codomain of a morphism.
    fn cod(&self, f: &Self::Hom) -> (r: Self::Ob)
        requires
            self.inv(),
            self.ends_defined(*f),
        ensures
            r == self.cod_spec(*f),
    ;

    /// Composes a path of morphisms.
    fn compose(&self, path: Path<Self::Ob, Self::Hom>) -> (r: Self::Hom)
        requires
            self.inv(),
            self.path_composable(path),
        ensures
            r == self.compose_spec(path),
    ;

    /// Composes a pair of morphisms, `f` then `g`.
    fn compose2(&self, f: Self::Hom, g: Self::Hom) -> (r: Self::Hom)
        requires
            self.inv(),
            self.composable(f, g),
        ensures
            r == self.compose2_spec(f, g),
    ;

    /// The identity morphism on an object.
    fn id(&self, x: Self::Ob) -> (r: Self::Hom)
        ensures
            r == self.id_spec(x),
    ;
}

/// A finitely generated category: it can list its object and morphism
/// generators, also by the object where a generator starts or ends.
pub trait FgCategory: Category {
    /// Is `x` an object generator?
    spec fn has_ob_generator_spec(&self, x: Self::Ob) -> bool;

    /// Is `f` a morphism generator?
    spec fn has_hom_generator_spec(&self, f: Self::Hom) -> bool;

    /// The object generators, in the order they are listed.
    spec fn ob_generators_spec(&self) -> Seq<Self::Ob>;

    /// The morphism generators, in the order they are listed.
    spec fn hom_generators_spec(&self) -> Seq<Self::Hom>;

    /// The morphism generators with domain `x`.
    spec fn generators_with_dom_spec(&self, x: Self::Ob) -> Seq<Self::Hom>;

    /// The morphism generators with codomain `x`.
    spec fn generators_with_cod_spec(&self, x: Self::Ob) -> Seq<Self::Hom>;

    /// Is `x` an object generator?
    fn has_ob_generator(&self, x: &Self::Ob) -> (r: bool)
        requires
            self.inv(),
        ensures
            r == self.has_ob_generator_spec(*x),
    ;

    /// Is `f` a morphism generator?
    fn has_hom_generator(&self, f: &Self::Hom) -> (r: bool)
        requires
            self.inv(),
        ensures
            r == self.has_hom_generator_spec(*f),
    ;

    /// Lists the object generators.
    fn ob_generators(&self) -> (r: Vec<Self::Ob>)
        requires
            self.inv(),
        ensures
            r@ == self.ob_generators_spec(),
    ;

    /// Lists the morphism generators.
    fn hom_generators(&self) -> (r: Vec<Self::Hom>)
        requires
            self.inv(),
        ensures
            r@ == self.hom_generators_spec(),
    ;

    /// Lists the morphism generators with domain `x`.
    fn generators_with_dom(&self, x: &Self::Ob) -> (r: Vec<Self::Hom>)
        requires
            self.inv(),
        ensures
            r@ == self.generators_with_dom_spec(*x),
    ;

    /// Lists the morphism generators with codomain `x`.
    fn generators_with_cod(&self, x: &Self::Ob) -> (r: Vec<Self::Hom>)
        requires
            self.inv(),
        ensures
            r@ == self.generators_with_cod_spec(*x),
    ;
}

} // verus!
