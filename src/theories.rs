//! Standard library of double theories, named by interned strings.

use ustr::Ustr;
use vstd::prelude::*;

use crate::dbl_theory::{DiscreteDblTheory, DiscreteTabTheory, TabObType, TabMorType};
use crate::category::{Category, FgCategory};
use crate::fin_category::{FinCategory, FinHom};

verus! {

/// A finite category whose objects and morphisms are named by interned strings.
pub type UstrFinCategory = FinCategory<Ustr, Ustr>;

/// A discrete double theory named by interned strings.
pub type UstrDiscreteDblTheory = DiscreteDblTheory<Ustr, Ustr>;

/// A discrete tabulator theory named by interned strings.
pub type UstrDiscreteTabTheory = DiscreteTabTheory<Ustr, Ustr>;

/// Relies on `ustr::ustr`: interns `s` and returns its handle.
#[verifier::external_body]
fn intern(s: &str) -> (r: Ustr) {
    ustr::ustr(s)
}

/// The theory of categories, aka the trivial double theory: one object type
/// and no basic morphism types. As a double category it is terminal.
pub fn th_category() -> (r: UstrDiscreteDblTheory)
    ensures
        r.cat().wf(),
        r.cat().ob_seq().len() == 1,
        r.cat().hom_seq().len() == 0,
        r.cat().table() == Map::<(Ustr, Ustr), FinHom<Ustr, Ustr>>::empty(),
{
    let mut cat: UstrFinCategory = FinCategory::new();
    cat.add_ob_generator(intern("Object"));
    DiscreteDblTheory::from(cat)
}

/// The theory of database schemas with attributes, the "walking proarrow":
/// an entity type, an attribute type, and one morphism type from the first
/// to the second.
pub fn th_schema() -> (r: UstrDiscreteDblTheory)
    ensures
        r.cat().wf(),
        r.cat().hom_seq().len() == 1,
        r.cat().edges().contains_key(r.cat().hom_seq()[0]),
        r.cat().edges()[r.cat().hom_seq()[0]] == (r.cat().ob_seq()[0], r.cat().ob_seq().last()),
        r.cat().ob_seq().len() == 1 || r.cat().ob_seq().len() == 2,
        r.cat().table() == Map::<(Ustr, Ustr), FinHom<Ustr, Ustr>>::empty(),
{
    let mut cat: UstrFinCategory = FinCategory::new();
    let x = intern("Entity");
    let y = intern("AttrType");
    let p = intern("Attr");
    cat.add_ob_generator(x);
    cat.add_ob_generator(y);
    cat.add_hom_generator(p, x, y);
    DiscreteDblTheory::from(cat)
}

/// The theory of signed categories, categories sliced over the group of
/// signs: one object type and one endomorphism type, negation, which is its
/// own inverse.
pub fn th_signed_category() -> (r: UstrDiscreteDblTheory)
    ensures
        r.cat().wf(),
        r.cat().ob_seq().len() == 1,
        r.cat().hom_seq().len() == 1,
        ({
            let x = r.cat().ob_seq()[0];
            let n = r.cat().hom_seq()[0];
            &&& r.cat().edges() == map![n => (x, x)]
            &&& r.cat().table() == map![(n, n) => FinHom::<Ustr, Ustr>::Id(x)]
            &&& r.cat().composable(FinHom::Generator(n), FinHom::Generator(n))
            &&& r.cat().compose2_spec(FinHom::Generator(n), FinHom::Generator(n)) == FinHom::<
                Ustr,
                Ustr,
            >::Id(x)
        }),
{
    let mut sgn: UstrFinCategory = FinCategory::new();
    let x = intern("Object");
    let n = intern("Negative");
    sgn.add_ob_generator(x);
    sgn.add_hom_generator(n, x, x);
    sgn.set_composite(n, n, FinHom::Id(x));
    assert(sgn.edges() =~= map![n => (x, x)]);
    assert(sgn.table() =~= map![(n, n) => FinHom::<Ustr, Ustr>::Id(x)]);
    DiscreteDblTheory::from(sgn)
}

/// The theory of categories with links: a category `C` with a profunctor
/// from `C` to its arrow category. One object type, and one basic morphism
/// type, the link, from the tabulator of the hom type of that object type to
/// the object type itself.
pub fn th_category_links() -> (r: UstrDiscreteTabTheory)
    ensures
        r.wf(),
        r.ob_type_seq().len() == 1,
        r.mor_type_seq().len() == 1,
        ({
            let x = r.ob_type_seq()[0];
            let link = r.mor_type_seq()[0];
            r.mor_type_ends() == map![link => (
                TabObType::<Ustr, Ustr>::Tabulator(
                    Box::new(TabMorType::Hom(Box::new(TabObType::Basic(x)))),
                ),
                TabObType::<Ustr, Ustr>::Basic(x),
            )]
        }),
{
    let mut th: UstrDiscreteTabTheory = DiscreteTabTheory::new();
    let x = intern("Object");
    th.add_ob_type(x);
    let hom = th.hom_type(TabObType::Basic(x));
    let tab = th.tabulator(hom);
    let link = intern("Link");
    th.add_mor_type(link, tab, TabObType::Basic(x));
    assert(th.mor_type_ends() =~= map![link => (
        TabObType::<Ustr, Ustr>::Tabulator(
            Box::new(TabMorType::Hom(Box::new(TabObType::Basic(x)))),
        ),
        TabObType::<Ustr, Ustr>::Basic(x),
    )]);
    th
}

} // verus!
