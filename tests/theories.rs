use catlog::dbl_theory::{TabMorType, TabObType};
use catlog::fin_category::FinHom;
use catlog::theories::{th_category, th_category_links, th_schema, th_signed_category};
use ustr::ustr;

#[test]
fn theories_theories() {
    assert_eq!(th_category().basic_ob_types().len(), 1);
    assert_eq!(th_schema().basic_ob_types().len(), 2);
    assert_eq!(th_signed_category().basic_mor_types().len(), 1);
    assert_eq!(th_category_links().basic_mor_types().len(), 1);
}

#[test]
fn signed_category_negation_is_involution() {
    let th = th_signed_category();
    let mors = th.basic_mor_types();
    assert_eq!(mors, vec![FinHom::Generator(ustr("Negative"))]);
    let n = mors[0];
    let x = ustr("Object");
    assert_eq!(th.src(&n), x);
    assert_eq!(th.tgt(&n), x);
    assert_eq!(th.compose_types(n, n), FinHom::Id(x));
}

#[test]
fn schema_attribute_goes_from_entity_to_attr_type() {
    let th = th_schema();
    assert_eq!(th.basic_ob_types(), vec![ustr("Entity"), ustr("AttrType")]);
    let mors = th.basic_mor_types();
    assert_eq!(mors.len(), 1);
    assert_eq!(th.src(&mors[0]), ustr("Entity"));
    assert_eq!(th.tgt(&mors[0]), ustr("AttrType"));
    assert!(th.has_mor_type(&FinHom::Generator(ustr("Attr"))));
    assert!(th.has_ob_type(&ustr("Entity")));
}

#[test]
fn category_theory_has_no_basic_morphisms() {
    let th = th_category();
    assert_eq!(th.basic_ob_types(), vec![ustr("Object")]);
    assert!(th.basic_mor_types().is_empty());
    assert!(th.has_mor_type(&FinHom::Id(ustr("Object"))));
}

#[test]
fn link_goes_from_tabulator_to_object() {
    let th = th_category_links();
    let x = ustr("Object");
    assert_eq!(th.basic_ob_types(), vec![TabObType::Basic(x)]);
    assert_eq!(th.basic_mor_types(), vec![TabMorType::Basic(ustr("Link"))]);
    let ends = th.mor_type_ends_of(&ustr("Link")).unwrap();
    let tab = TabObType::Tabulator(Box::new(TabMorType::Hom(Box::new(TabObType::Basic(x)))));
    assert_eq!(ends.0, tab);
    assert_eq!(ends.1, TabObType::Basic(x));
    assert!(th.mor_type_ends_of(&ustr("Object")).is_none());
}
