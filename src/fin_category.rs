//! Finite categories with an explicitly tabulated composition law.
//!
//! A finite category is generated by a graph: objects are vertices and
//! morphism generators are edges, each with a recorded source and target. The
//! composite of two composable generators is looked up in a table whose
//! entries are in normal form: an identity or a single generator. Identities
//! are never looked up; they are absorbed by composition.

use vstd::prelude::*;

use crate::assoc::{
    find_key, find_pair_key, keys_unique, lemma_push_unique, lemma_to_map_at, lemma_to_map_dom,
    lemma_to_map_update, to_map,
};
use crate::category::{Category, FgCategory, Path};
use crate::ident::Ident;

verus! {

/// Morphism in a finite category.
#[derive(Clone, Copy, Debug, PartialEq, Eq, Hash)]
pub enum FinHom<V, E> {
    /// Identity morphism on an object.
    Id(V),
    /// Generating morphism of the finite category.
    Generator(E),
}

/// A finite category with an explicitly defined composition law.
///
/// The composition law is a table on ordered pairs of morphism generators.
/// Finite categories show up as schemas and theories: the schemas for graphs,
/// symmetric graphs and reflexive graphs are all finite.
pub struct FinCategory<V, E> {
    obs: Vec<V>,
    homs: Vec<(E, (V, V))>,
    composites: Vec<((E, E), FinHom<V, E>)>,
}

/// Left-to-right composite of a non-empty sequence, given the binary law.
pub open spec fn fold_composite<V: Ident, E: Ident>(
    c: &FinCategory<V, E>,
    s: Seq<FinHom<V, E>>,
) -> FinHom<V, E>
    recommends
        s.len() > 0,
    decreases s.len(),
{
    if s.len() <= 1 {
        s[0]
    } else {
        c.compose2_spec(fold_composite(c, s.drop_last()), s.last())
    }
}

impl<V, E> FinCategory<V, E> {
    /// Object generators, in order of insertion.
    pub closed spec fn ob_seq(&self) -> Seq<V> {
        self.obs@
    }

    /// Morphism generators, in order of insertion.
    pub closed spec fn hom_seq(&self) -> Seq<E> {
        self.homs@.map_values(|p: (E, (V, V))| p.0)
    }

    /// Source and target of each morphism generator.
    pub closed spec fn edges(&self) -> Map<E, (V, V)> {
        to_map(self.homs@)
    }

    /// The composition table on pairs of morphism generators.
    pub closed spec fn table(&self) -> Map<(E, E), FinHom<V, E>> {
        to_map(self.composites@)
    }

    /// Generators are recorded once each and the table has one entry per pair.
    pub closed spec fn wf(&self) -> bool {
        &&& self.obs@.no_duplicates()
        &&& keys_unique(self.homs@)
        &&& keys_unique(self.composites@)
    }
}

impl<V: Ident, E: Ident> FinCategory<V, E> {
    /// Every step of the left-to-right evaluation of a sequence is defined.
    pub open spec fn seq_composable(&self, s: Seq<FinHom<V, E>>) -> bool {
        &&& s.len() > 0
        &&& forall|i: int|
            1 <= i < s.len() ==> #[trigger] self.composable(
                fold_composite(self, s.take(i)),
                s[i],
            )
    }

    /// Keeps a generator, as a morphism, when its source is `x`.
    pub open spec fn pick_with_dom(&self, x: V) -> spec_fn(E) -> Option<FinHom<V, E>> {
        |e: E|
            if self.edges()[e].0 == x {
                Some(FinHom::<V, E>::Generator(e))
            } else {
                None
            }
    }

    /// Keeps a generator, as a morphism, when its target is `x`.
    pub open spec fn pick_with_cod(&self, x: V) -> spec_fn(E) -> Option<FinHom<V, E>> {
        |e: E|
            if self.edges()[e].1 == x {
                Some(FinHom::<V, E>::Generator(e))
            } else {
                None
            }
    }

    /// Associativity at three generators: when both bracketings of `d`, `e`,
    /// `g` are defined, they agree.
    pub open spec fn assoc_at(&self, d: E, e: E, g: E) -> bool {
        let fd = FinHom::<V, E>::Generator(d);
        let fe = FinHom::<V, E>::Generator(e);
        let fg = FinHom::<V, E>::Generator(g);
        self.composable(fd, fe) && self.composable(fe, fg) && self.composable(
            self.compose2_spec(fd, fe),
            fg,
        ) && self.composable(fd, self.compose2_spec(fe, fg)) ==> self.compose2_spec(
            self.compose2_spec(fd, fe),
            fg,
        ) == self.compose2_spec(fd, self.compose2_spec(fe, fg))
    }

    /// The composition table is associative at every triple of generators.
    pub open spec fn associative(&self) -> bool {
        forall|d: E, e: E, g: E| #[trigger] self.assoc_at(d, e, g)
    }

    /// The composition table is defined on every composable pair of generators.
    pub open spec fn total(&self) -> bool {
        forall|d: E, e: E|
            #![trigger self.edges()[d], self.edges()[e]]
            self.edges().contains_key(d) && self.edges().contains_key(e) && self.edges()[d].1
                == self.edges()[e].0 ==> self.table().contains_key((d, e))
    }
}

/// The object sequence after adding each of `vs` in turn, skipping those
/// already present.
pub open spec fn with_obs<V>(s: Seq<V>, vs: Seq<V>) -> Seq<V>
    decreases vs.len(),
{
    if vs.len() == 0 {
        s
    } else {
        let t = with_obs(s, vs.drop_last());
        if t.contains(vs.last()) {
            t
        } else {
            t.push(vs.last())
        }
    }
}

impl<V: Ident, E: Ident> FinCategory<V, E> {
    /// The category with no generators.
    pub fn new() -> (r: Self)
        ensures
            r.wf(),
            r.ob_seq() == Seq::<V>::empty(),
            r.hom_seq() == Seq::<E>::empty(),
            r.edges() == Map::<E, (V, V)>::empty(),
            r.table() == Map::<(E, E), FinHom<V, E>>::empty(),
    {
        let r = FinCategory { obs: Vec::new(), homs: Vec::new(), composites: Vec::new() };
        assert(r.hom_seq() =~= Seq::<E>::empty());
        r
    }

    /// Adds an object generator, returning whether it is new.
    pub fn add_ob_generator(&mut self, v: V) -> (r: bool)
        requires
            old(self).wf(),
        ensures
            final(self).wf(),
            r == !old(self).ob_seq().contains(v),
            final(self).ob_seq() == (if r {
                old(self).ob_seq().push(v)
            } else {
                old(self).ob_seq()
            }),
            final(self).hom_seq() == old(self).hom_seq(),
            final(self).edges() == old(self).edges(),
            final(self).table() == old(self).table(),
    {
        let mut i: usize = 0;
        while i < self.obs.len()
            invariant
                i <= self.obs@.len(),
                *self == *old(self),
                self.wf(),
                forall|j: int| 0 <= j < i ==> self.obs@[j] != v,
            decreases self.obs@.len() - i,
        {
            if self.obs[i].same(&v) {
                return false;
            }
            i = i + 1;
        }
        assert(!self.obs@.contains(v));
        self.obs.push(v);
        true
    }

    /// Adds several object generators, in order.
    pub fn add_ob_generators(&mut self, vs: Vec<V>)
        requires
            old(self).wf(),
        ensures
            final(self).wf(),
            final(self).ob_seq() == with_obs(old(self).ob_seq(), vs@),
            final(self).hom_seq() == old(self).hom_seq(),
            final(self).edges() == old(self).edges(),
            final(self).table() == old(self).table(),
    {
        let mut i: usize = 0;
        while i < vs.len()
            invariant
                i <= vs@.len(),
                self.wf(),
                self.ob_seq() == with_obs(old(self).ob_seq(), vs@.take(i as int)),
                self.hom_seq() == old(self).hom_seq(),
                self.edges() == old(self).edges(),
                self.table() == old(self).table(),
            decreases vs@.len() - i,
        {
            assert(vs@.take(i + 1).drop_last() =~= vs@.take(i as int));
            self.add_ob_generator(vs[i]);
            i = i + 1;
        }
        assert(vs@.take(vs@.len() as int) =~= vs@);
    }

    /// Adds a morphism generator from `dom` to `cod`, returning whether it is
    /// new. The source and target need not be objects yet. A generator that
    /// already exists keeps its place and takes the new source and target.
    pub fn add_hom_generator(&mut self, e: E, dom: V, cod: V) -> (r: bool)
        requires
            old(self).wf(),
        ensures
            final(self).wf(),
            r == !old(self).edges().contains_key(e),
            final(self).hom_seq() == (if r {
                old(self).hom_seq().push(e)
            } else {
                old(self).hom_seq()
            }),
            final(self).edges() == old(self).edges().insert(e, (dom, cod)),
            final(self).ob_seq() == old(self).ob_seq(),
            final(self).table() == old(self).table(),
    {
        proof {
            lemma_to_map_dom(self.homs@, e);
        }
        match find_key(&self.homs, &e) {
            Some(i) => {
                proof {
                    lemma_to_map_update(self.homs@, i as int, (dom, cod));
                }
                let ghost before = self.homs@;
                self.homs.set(i, (e, (dom, cod)));
                assert(self.homs@ =~= before.update(i as int, (before[i as int].0, (dom, cod))));
                assert(keys_unique(self.homs@)) by {
                    assert forall|a: int, b: int|
                        0 <= a < self.homs@.len() && 0 <= b < self.homs@.len()
                            && #[trigger] self.homs@[a].0 == #[trigger] self.homs@[b].0 implies a
                        == b by {
                        assert(before[a].0 == before[b].0);
                    }
                }
                assert(self.hom_seq() =~= old(self).hom_seq());
                false
            },
            None => {
                proof {
                    lemma_push_unique(self.homs@, e, (dom, cod));
                }
                self.homs.push((e, (dom, cod)));
                assert(self.hom_seq() =~= old(self).hom_seq().push(e));
                true
            },
        }
    }

    /// Sets the composite of the generators `d` then `e`, replacing any
    /// earlier entry for that pair.
    pub fn set_composite(&mut self, d: E, e: E, f: FinHom<V, E>)
        requires
            old(self).wf(),
        ensures
            final(self).wf(),
            final(self).table() == old(self).table().insert((d, e), f),
            final(self).ob_seq() == old(self).ob_seq(),
            final(self).hom_seq() == old(self).hom_seq(),
            final(self).edges() == old(self).edges(),
    {
        match find_pair_key(&self.composites, &d, &e) {
            Some(i) => {
                proof {
                    lemma_to_map_update(self.composites@, i as int, f);
                }
                let ghost before = self.composites@;
                self.composites.set(i, ((d, e), f));
                assert(self.composites@ =~= before.update(i as int, (before[i as int].0, f)));
                assert(keys_unique(self.composites@)) by {
                    assert forall|a: int, b: int|
                        0 <= a < self.composites@.len() && 0 <= b < self.composites@.len()
                            && #[trigger] self.composites@[a].0 == #[trigger] self.composites@[b].0
                        implies a == b by {
                        assert(before[a].0 == before[b].0);
                    }
                }
            },
            None => {
                proof {
                    lemma_push_unique(self.composites@, (d, e), f);
                }
                self.composites.push(((d, e), f));
            },
        }
    }
}


impl<V: Ident, E: Ident> Default for FinCategory<V, E> {
    /// The category with no generators.
    fn default() -> (r: Self)
        ensures
            r.wf(),
            r.ob_seq() == Seq::<V>::empty(),
            r.hom_seq() == Seq::<E>::empty(),
            r.edges() == Map::<E, (V, V)>::empty(),
            r.table() == Map::<(E, E), FinHom<V, E>>::empty(),
    {
        FinCategory::new()
    }
}

impl<V: Ident, E: Ident> FinCategory<V, E> {
    /// Source and target of a morphism generator, if it exists.
    fn edge(&self, e: &E) -> (r: Option<(V, V)>)
        requires
            self.wf(),
        ensures
            r is Some <==> self.edges().contains_key(*e),
            r is Some ==> r->0 == self.edges()[*e],
    {
        proof {
            lemma_to_map_dom(self.homs@, *e);
        }
        match find_key(&self.homs, e) {
            Some(i) => {
                proof {
                    lemma_to_map_at(self.homs@, i as int);
                }
                Some(self.homs[i].1)
            },
            None => None,
        }
    }
}

impl<V: Ident, E: Ident> Category for FinCategory<V, E> {
    type Ob = V;

    type Hom = FinHom<V, E>;

    open spec fn inv(&self) -> bool {
        self.wf()
    }

    /// Does the category have the object `x`?
    open spec fn has_ob_spec(&self, x: V) -> bool {
        self.ob_seq().contains(x)
    }

    /// Is `f` a morphism of the category?
    open spec fn has_hom_spec(&self, f: FinHom<V, E>) -> bool {
        match f {
            FinHom::Id(v) => self.has_ob_spec(v),
            FinHom::Generator(e) => self.edges().contains_key(e),
        }
    }

    /// Domain and codomain of `f` are known: it is an identity or an
    /// existing generator.
    open spec fn ends_defined(&self, f: FinHom<V, E>) -> bool {
        match f {
            FinHom::Id(_) => true,
            FinHom::Generator(e) => self.edges().contains_key(e),
        }
    }

    /// Domain of a morphism.
    open spec fn dom_spec(&self, f: FinHom<V, E>) -> V {
        match f {
            FinHom::Id(v) => v,
            FinHom::Generator(e) => self.edges()[e].0,
        }
    }

    /// Codomain of a morphism.
    open spec fn cod_spec(&self, f: FinHom<V, E>) -> V {
        match f {
            FinHom::Id(v) => v,
            FinHom::Generator(e) => self.edges()[e].1,
        }
    }

    /// Can `f` and `g` be composed? Identities always can; two generators can
    /// when both exist, the codomain of the first is the domain of the second
    /// and the table holds their composite.
    open spec fn composable(&self, f: FinHom<V, E>, g: FinHom<V, E>) -> bool {
        match (f, g) {
            (FinHom::Generator(d), FinHom::Generator(e)) => {
                &&& self.edges().contains_key(d)
                &&& self.edges().contains_key(e)
                &&& self.edges()[d].1 == self.edges()[e].0
                &&& self.table().contains_key((d, e))
            },
            _ => true,
        }
    }

    /// Binary composite `f` then `g`: identities are absorbed, and two
    /// generators compose by the table.
    open spec fn compose2_spec(&self, f: FinHom<V, E>, g: FinHom<V, E>) -> FinHom<V, E> {
        match (f, g) {
            (FinHom::Id(_), g) => g,
            (f, FinHom::Id(_)) => f,
            (FinHom::Generator(d), FinHom::Generator(e)) => self.table()[(d, e)],
        }
    }

    /// Can the path be evaluated?
    open spec fn path_composable(&self, p: Path<V, FinHom<V, E>>) -> bool {
        match p {
            Path::Id(_) => true,
            Path::Chain(fs) => self.seq_composable(fs@),
        }
    }

    /// The value of a path: the identity, or the left fold of the binary law.
    open spec fn compose_spec(&self, p: Path<V, FinHom<V, E>>) -> FinHom<V, E> {
        match p {
            Path::Id(x) => FinHom::Id(x),
            Path::Chain(fs) => fold_composite(self, fs@),
        }
    }

    /// The identity on `x`.
    open spec fn id_spec(&self, x: V) -> FinHom<V, E> {
        FinHom::Id(x)
    }

    /// Does the category have the object `x`?
    fn has_ob(&self, x: &V) -> (r: bool)
    {
        let mut i: usize = 0;
        while i < self.obs.len()
            invariant
                i <= self.obs@.len(),
                forall|j: int| 0 <= j < i ==> self.obs@[j] != *x,
            decreases self.obs@.len() - i,
        {
            if self.obs[i].same(x) {
                assert(self.ob_seq()[i as int] == *x);
                return true;
            }
            i = i + 1;
        }
        false
    }

    /// Is `f` a morphism of the category? An identity is one when its object
    /// is; a generator when it was added.
    fn has_hom(&self, f: &FinHom<V, E>) -> (r: bool)
    {
        match f {
            FinHom::Id(v) => self.has_ob(v),
            FinHom::Generator(e) => self.edge(e).is_some(),
        }
    }

    /// Domain of a morphism: the object of an identity, the recorded source
    /// of a generator.
    fn dom(&self, f: &FinHom<V, E>) -> (r: V)
    {
        match f {
            FinHom::Id(v) => *v,
            FinHom::Generator(e) => self.edge(e).unwrap().0,
        }
    }

    /// Codomain of a morphism: the object of an identity, the recorded target
    /// of a generator.
    fn cod(&self, f: &FinHom<V, E>) -> (r: V)
    {
        match f {
            FinHom::Id(v) => *v,
            FinHom::Generator(e) => self.edge(e).unwrap().1,
        }
    }

    /// Composite of `f` then `g`. An identity on either side is absorbed;
    /// two generators compose by the table.
    fn compose2(&self, f: FinHom<V, E>, g: FinHom<V, E>) -> (r: FinHom<V, E>)
    {
        match (f, g) {
            (FinHom::Id(_), g) => g,
            (f, FinHom::Id(_)) => f,
            (FinHom::Generator(d), FinHom::Generator(e)) => {
                proof {
                    lemma_to_map_dom(self.composites@, (d, e));
                }
                let i = find_pair_key(&self.composites, &d, &e).unwrap();
                proof {
                    lemma_to_map_at(self.composites@, i as int);
                }
                self.composites[i].1
            },
        }
    }

    /// Evaluates a path: the identity at its object, or the left-to-right
    /// fold of binary composition over its morphisms.
    fn compose(&self, path: Path<V, FinHom<V, E>>) -> (r: FinHom<V, E>)
    {
        match path {
            Path::Id(x) => self.id(x),
            Path::Chain(fs) => {
                let mut acc = fs[0];
                let mut i: usize = 1;
                assert(fs@.take(1) =~= seq![fs@[0]]);
                while i < fs.len()
                    invariant
                        self.wf(),
                        self.seq_composable(fs@),
                        1 <= i <= fs@.len(),
                        acc == fold_composite(self, fs@.take(i as int)),
                    decreases fs@.len() - i,
                {
                    assert(self.composable(fold_composite(self, fs@.take(i as int)), fs@[i as int]));
                    assert(fs@.take(i + 1).drop_last() =~= fs@.take(i as int));
                    acc = self.compose2(acc, fs[i]);
                    i = i + 1;
                }
                assert(fs@.take(fs@.len() as int) =~= fs@);
                acc
            },
        }
    }

    /// The identity morphism on `x`.
    fn id(&self, x: V) -> (r: FinHom<V, E>)
    {
        FinHom::Id(x)
    }
}

impl<V: Ident, E: Ident> FgCategory for FinCategory<V, E> {
    /// The object generators are the objects.
    open spec fn has_ob_generator_spec(&self, x: V) -> bool {
        self.has_ob_spec(x)
    }

    /// The object generators, in order of insertion.
    open spec fn ob_generators_spec(&self) -> Seq<V> {
        self.ob_seq()
    }

    /// Is `f` a morphism generator? Identities never are.
    open spec fn has_hom_generator_spec(&self, f: FinHom<V, E>) -> bool {
        match f {
            FinHom::Id(_) => false,
            FinHom::Generator(e) => self.edges().contains_key(e),
        }
    }

    /// The morphism generators as morphisms, in order of insertion.
    open spec fn hom_generators_spec(&self) -> Seq<FinHom<V, E>> {
        self.hom_seq().map_values(|e: E| FinHom::<V, E>::Generator(e))
    }

    /// The generators whose source is `x`, in order of insertion.
    open spec fn generators_with_dom_spec(&self, x: V) -> Seq<FinHom<V, E>> {
        self.hom_seq().filter_map(self.pick_with_dom(x))
    }

    /// The generators whose target is `x`, in order of insertion.
    open spec fn generators_with_cod_spec(&self, x: V) -> Seq<FinHom<V, E>> {
        self.hom_seq().filter_map(self.pick_with_cod(x))
    }

    /// Is `x` an object generator?
    fn has_ob_generator(&self, x: &V) -> (r: bool)
    {
        self.has_ob(x)
    }

    /// Is `f` a morphism generator? Identities are not generators.
    fn has_hom_generator(&self, f: &FinHom<V, E>) -> (r: bool)
    {
        match f {
            FinHom::Id(_) => false,
            FinHom::Generator(e) => self.edge(e).is_some(),
        }
    }

    /// The object generators, in order of insertion.
    fn ob_generators(&self) -> (r: Vec<V>)
    {
        let mut r: Vec<V> = Vec::new();
        let mut i: usize = 0;
        while i < self.obs.len()
            invariant
                i <= self.obs@.len(),
                r@ == self.obs@.take(i as int),
            decreases self.obs@.len() - i,
        {
            r.push(self.obs[i]);
            i = i + 1;
            assert(r@ =~= self.obs@.take(i as int));
        }
        assert(self.obs@.take(i as int) =~= self.obs@);
        r
    }

    /// The morphism generators, in order of insertion.
    fn hom_generators(&self) -> (r: Vec<FinHom<V, E>>)
    {
        let mut r: Vec<FinHom<V, E>> = Vec::new();
        let mut i: usize = 0;
        while i < self.homs.len()
            invariant
                i <= self.homs@.len(),
                r@ == self.hom_seq().take(i as int).map_values(
                    |e: E| FinHom::<V, E>::Generator(e),
                ),
            decreases self.homs@.len() - i,
        {
            r.push(FinHom::Generator(self.homs[i].0));
            i = i + 1;
            assert(r@ =~= self.hom_seq().take(i as int).map_values(
                |e: E| FinHom::<V, E>::Generator(e),
            ));
        }
        assert(self.hom_seq().take(i as int) =~= self.hom_seq());
        r
    }

    /// The generators whose source is `x`, in order of insertion.
    fn generators_with_dom(&self, x: &V) -> (r: Vec<FinHom<V, E>>)
    {
        let ghost f = self.pick_with_dom(*x);
        let mut r: Vec<FinHom<V, E>> = Vec::new();
        let mut i: usize = 0;
        while i < self.homs.len()
            invariant
                self.wf(),
                i <= self.homs@.len(),
                f == self.pick_with_dom(*x),
                r@ == self.hom_seq().take(i as int).filter_map(f),
            decreases self.homs@.len() - i,
        {
            proof {
                self.hom_seq().lemma_filter_map_take_succ(f, i as int);
                lemma_to_map_at(self.homs@, i as int);
            }
            let ghost before = r@;
            assert(self.hom_seq()[i as int] == self.homs@[i as int].0);
            if (self.homs[i].1).0.same(x) {
                r.push(FinHom::Generator(self.homs[i].0));
                assert(r@ =~= before + seq![FinHom::<V, E>::Generator(self.homs@[i as int].0)]);
            } else {
                assert(before =~= before + Seq::<FinHom<V, E>>::empty());
            }
            i = i + 1;
        }
        assert(self.hom_seq().take(i as int) =~= self.hom_seq());
        r
    }

    /// The generators whose target is `x`, in order of insertion.
    fn generators_with_cod(&self, x: &V) -> (r: Vec<FinHom<V, E>>)
    {
        let ghost f = self.pick_with_cod(*x);
        let mut r: Vec<FinHom<V, E>> = Vec::new();
        let mut i: usize = 0;
        while i < self.homs.len()
            invariant
                self.wf(),
                i <= self.homs@.len(),
                f == self.pick_with_cod(*x),
                r@ == self.hom_seq().take(i as int).filter_map(f),
            decreases self.homs@.len() - i,
        {
            proof {
                self.hom_seq().lemma_filter_map_take_succ(f, i as int);
                lemma_to_map_at(self.homs@, i as int);
            }
            let ghost before = r@;
            assert(self.hom_seq()[i as int] == self.homs@[i as int].0);
            if (self.homs[i].1).1.same(x) {
                r.push(FinHom::Generator(self.homs[i].0));
                assert(r@ =~= before + seq![FinHom::<V, E>::Generator(self.homs@[i as int].0)]);
            } else {
                assert(before =~= before + Seq::<FinHom<V, E>>::empty());
            }
            i = i + 1;
        }
        assert(self.hom_seq().take(i as int) =~= self.hom_seq());
        r
    }
}

/// Decides whether two morphisms are the same.
fn same_hom<V: Ident, E: Ident>(f: &FinHom<V, E>, g: &FinHom<V, E>) -> (r: bool)
    ensures
        r == (*f == *g),
{
    match (f, g) {
        (FinHom::Id(v), FinHom::Id(w)) => v.same(w),
        (FinHom::Generator(d), FinHom::Generator(e)) => d.same(e),
        _ => false,
    }
}

impl<V: Ident, E: Ident> FinCategory<V, E> {
    /// Decides whether `f` and `g` can be composed.
    pub fn can_compose(&self, f: &FinHom<V, E>, g: &FinHom<V, E>) -> (r: bool)
        requires
            self.wf(),
        ensures
            r == self.composable(*f, *g),
    {
        match (f, g) {
            (FinHom::Generator(d), FinHom::Generator(e)) => {
                match (self.edge(d), self.edge(e)) {
                    (Some(de), Some(ee)) => {
                        if de.1.same(&ee.0) {
                            proof {
                                lemma_to_map_dom(self.composites@, (*d, *e));
                            }
                            find_pair_key(&self.composites, d, e).is_some()
                        } else {
                            false
                        }
                    },
                    _ => false,
                }
            },
            _ => true,
        }
    }

    /// Checks that the composition table is defined on every pair of
    /// generators where the first ends at the start of the second.
    pub fn is_total(&self) -> (r: bool)
        requires
            self.wf(),
        ensures
            r == self.total(),
    {
        let n = self.homs.len();
        let mut a: usize = 0;
        while a < n
            invariant
                self.wf(),
                n == self.homs@.len(),
                a <= n,
                forall|i: int, j: int|
                    0 <= i < a && 0 <= j < n && self.homs@[i].1.1 == self.homs@[j].1.0
                        ==> #[trigger] self.table().contains_key(
                        (self.homs@[i].0, self.homs@[j].0),
                    ),
            decreases n - a,
        {
            let mut b: usize = 0;
            while b < n
                invariant
                    self.wf(),
                    n == self.homs@.len(),
                    a < n,
                    b <= n,
                    forall|i: int, j: int|
                        0 <= i < a && 0 <= j < n && self.homs@[i].1.1 == self.homs@[j].1.0
                            ==> #[trigger] self.table().contains_key(
                            (self.homs@[i].0, self.homs@[j].0),
                        ),
                    forall|j: int|
                        0 <= j < b && self.homs@[a as int].1.1 == self.homs@[j].1.0
                            ==> #[trigger] self.table().contains_key(
                            (self.homs@[a as int].0, self.homs@[j].0),
                        ),
                decreases n - b,
            {
                if (self.homs[a].1).1.same(&(self.homs[b].1).0) {
                    let d = self.homs[a].0;
                    let e = self.homs[b].0;
                    proof {
                        lemma_to_map_dom(self.composites@, (d, e));
                    }
                    if find_pair_key(&self.composites, &d, &e).is_none() {
                        proof {
                            lemma_to_map_at(self.homs@, a as int);
                            lemma_to_map_at(self.homs@, b as int);
                            assert(self.edges()[d].1 == self.edges()[e].0);
                        }
                        return false;
                    }
                }
                b = b + 1;
            }
            a = a + 1;
        }
        proof {
            assert forall|d: E, e: E|
                #![trigger self.edges()[d], self.edges()[e]]
                self.edges().contains_key(d) && self.edges().contains_key(e) && self.edges()[d].1
                    == self.edges()[e].0 implies self.table().contains_key((d, e)) by {
                lemma_to_map_dom(self.homs@, d);
                lemma_to_map_dom(self.homs@, e);
                let i = choose|i: int| 0 <= i < self.homs@.len() && self.homs@[i].0 == d;
                let j = choose|j: int| 0 <= j < self.homs@.len() && self.homs@[j].0 == e;
                lemma_to_map_at(self.homs@, i);
                lemma_to_map_at(self.homs@, j);
                assert(self.table().contains_key((self.homs@[i].0, self.homs@[j].0)));
            }
        }
        true
    }
    /// Whether both bracketings of `d`, `e`, `g` are defined and differ.
    fn fails_assoc_at(&self, d: E, e: E, g: E) -> (r: bool)
        requires
            self.wf(),
        ensures
            r == !self.assoc_at(d, e, g),
    {
        let fd = FinHom::Generator(d);
        let fe = FinHom::Generator(e);
        let fg = FinHom::Generator(g);
        if self.can_compose(&fd, &fe) && self.can_compose(&fe, &fg) {
            let de = self.compose2(fd, fe);
            let eg = self.compose2(fe, fg);
            if self.can_compose(&de, &fg) && self.can_compose(&fd, &eg) {
                let left = self.compose2(de, fg);
                let right = self.compose2(fd, eg);
                !same_hom(&left, &right)
            } else {
                false
            }
        } else {
            false
        }
    }

    /// Checks that the composition table is associative: for every three
    /// generators whose two bracketings are both defined, they agree.
    pub fn is_associative(&self) -> (r: bool)
        requires
            self.wf(),
        ensures
            r == self.associative(),
    {
        let n = self.homs.len();
        let mut a: usize = 0;
        while a < n
            invariant
                self.wf(),
                n == self.homs@.len(),
                a <= n,
                forall|i: int, j: int, k: int|
                    0 <= i < a && 0 <= j < n && 0 <= k < n ==> #[trigger] self.assoc_at(
                        self.homs@[i].0,
                        self.homs@[j].0,
                        self.homs@[k].0,
                    ),
            decreases n - a,
        {
            let mut b: usize = 0;
            while b < n
                invariant
                    self.wf(),
                    n == self.homs@.len(),
                    a < n,
                    b <= n,
                    forall|i: int, j: int, k: int|
                        0 <= i < a && 0 <= j < n && 0 <= k < n ==> #[trigger] self.assoc_at(
                            self.homs@[i].0,
                            self.homs@[j].0,
                            self.homs@[k].0,
                        ),
                    forall|j: int, k: int|
                        0 <= j < b && 0 <= k < n ==> #[trigger] self.assoc_at(
                            self.homs@[a as int].0,
                            self.homs@[j].0,
                            self.homs@[k].0,
                        ),
                decreases n - b,
            {
                let mut c: usize = 0;
                while c < n
                    invariant
                        self.wf(),
                        n == self.homs@.len(),
                        a < n,
                        b < n,
                        c <= n,
                        forall|i: int, j: int, k: int|
                            0 <= i < a && 0 <= j < n && 0 <= k < n ==> #[trigger] self.assoc_at(
                                self.homs@[i].0,
                                self.homs@[j].0,
                                self.homs@[k].0,
                            ),
                        forall|j: int, k: int|
                            0 <= j < b && 0 <= k < n ==> #[trigger] self.assoc_at(
                                self.homs@[a as int].0,
                                self.homs@[j].0,
                                self.homs@[k].0,
                            ),
                        forall|k: int|
                            0 <= k < c ==> #[trigger] self.assoc_at(
                                self.homs@[a as int].0,
                                self.homs@[b as int].0,
                                self.homs@[k].0,
                            ),
                    decreases n - c,
                {
                    if self.fails_assoc_at(self.homs[a].0, self.homs[b].0, self.homs[c].0) {
                        return false;
                    }
                    c = c + 1;
                }
                b = b + 1;
            }
            a = a + 1;
        }
        proof {
            assert forall|d: E, e: E, g: E| #[trigger] self.assoc_at(d, e, g) by {
                lemma_to_map_dom(self.homs@, d);
                lemma_to_map_dom(self.homs@, e);
                lemma_to_map_dom(self.homs@, g);
                if self.edges().contains_key(d) && self.edges().contains_key(e)
                    && self.edges().contains_key(g) {
                    let i = choose|i: int| 0 <= i < self.homs@.len() && self.homs@[i].0 == d;
                    let j = choose|j: int| 0 <= j < self.homs@.len() && self.homs@[j].0 == e;
                    let k = choose|k: int| 0 <= k < self.homs@.len() && self.homs@[k].0 == g;
                    assert(self.assoc_at(self.homs@[i].0, self.homs@[j].0, self.homs@[k].0));
                }
            }
        }
        true
    }
}

/// Evaluating the identity path at `x` gives the identity on `x`.
pub proof fn lemma_compose_id_path<V: Ident, E: Ident>(c: &FinCategory<V, E>, x: V)
    ensures
        c.compose_spec(Path::Id(x)) == FinHom::<V, E>::Id(x),
{
}

/// Identity laws: composing with the identity on the domain before, or on
/// the codomain after, gives the morphism back.
pub proof fn lemma_identity_laws<V: Ident, E: Ident>(c: &FinCategory<V, E>, f: FinHom<V, E>)
    ensures
        c.composable(FinHom::Id(c.dom_spec(f)), f),
        c.compose2_spec(FinHom::Id(c.dom_spec(f)), f) == f,
        c.composable(f, FinHom::Id(c.cod_spec(f))),
        c.compose2_spec(f, FinHom::Id(c.cod_spec(f))) == f,
{
}

/// Every morphism that the enumeration of generators lists is a generator
/// and a morphism of the category.
pub proof fn lemma_hom_generators_are_generators<V: Ident, E: Ident>(c: &FinCategory<V, E>)
    requires
        c.wf(),
    ensures
        forall|i: int|
            0 <= i < c.hom_generators_spec().len() ==> c.has_hom_generator_spec(
                #[trigger] c.hom_generators_spec()[i],
            ) && c.has_hom_spec(c.hom_generators_spec()[i]),
{
    assert forall|i: int| 0 <= i < c.hom_generators_spec().len() implies c.has_hom_generator_spec(
        #[trigger] c.hom_generators_spec()[i],
    ) && c.has_hom_spec(c.hom_generators_spec()[i]) by {
        lemma_to_map_at(c.homs@, i);
    }
}


/// Associativity: when the composition table is associative, composing three
/// generators in either bracketing gives the same morphism, whenever both
/// bracketings are defined by the table.
pub proof fn lemma_associativity<V: Ident, E: Ident>(c: &FinCategory<V, E>, d: E, e: E, g: E)
    requires
        c.associative(),
        c.composable(FinHom::Generator(d), FinHom::Generator(e)),
        c.composable(FinHom::Generator(e), FinHom::Generator(g)),
        c.composable(
            c.compose2_spec(FinHom::Generator(d), FinHom::Generator(e)),
            FinHom::Generator(g),
        ),
        c.composable(
            FinHom::Generator(d),
            c.compose2_spec(FinHom::Generator(e), FinHom::Generator(g)),
        ),
    ensures
        c.compose2_spec(
            c.compose2_spec(FinHom::Generator(d), FinHom::Generator(e)),
            FinHom::Generator(g),
        ) == c.compose2_spec(
            FinHom::Generator(d),
            c.compose2_spec(FinHom::Generator(e), FinHom::Generator(g)),
        ),
{
    assert(c.assoc_at(d, e, g));
}

} // verus!
