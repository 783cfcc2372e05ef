use catlog::category::{Category, FgCategory, Path};
use catlog::fin_category::{FinCategory, FinHom};

type Hom<V, E> = FinHom<V, E>;

fn sch_sgraph() -> FinCategory<char, char> {
    let mut c: FinCategory<char, char> = FinCategory::new();
    c.add_ob_generators(vec!['V', 'E']);
    c.add_hom_generator('s', 'E', 'V');
    c.add_hom_generator('t', 'E', 'V');
    c.add_hom_generator('i', 'E', 'E');
    c.set_composite('i', 'i', Hom::Id('E'));
    c.set_composite('i', 's', Hom::Generator('t'));
    c.set_composite('i', 't', Hom::Generator('s'));
    c
}

#[test]
fn fin_category() {
    let mut sch_sgraph: FinCategory<char, char> = FinCategory::new();
    sch_sgraph.add_ob_generators(vec!['V', 'E']);
    sch_sgraph.add_hom_generator('s', 'E', 'V');
    sch_sgraph.add_hom_generator('t', 'E', 'V');
    sch_sgraph.add_hom_generator('i', 'E', 'E');
    assert_eq!(sch_sgraph.ob_generators().len(), 2);
    assert_eq!(sch_sgraph.hom_generators().len(), 3);
    assert_eq!(sch_sgraph.dom(&Hom::Generator('t')), 'E');
    assert_eq!(sch_sgraph.cod(&Hom::Generator('t')), 'V');

    sch_sgraph.set_composite('i', 'i', Hom::Id('E'));
    sch_sgraph.set_composite('i', 's', Hom::Generator('t'));
    sch_sgraph.set_composite('i', 't', Hom::Generator('s'));
    assert_eq!(
        sch_sgraph.compose2(Hom::Generator('i'), Hom::Generator('i')),
        Hom::Id('E')
    );
    let path = Path::Chain(vec![
        Hom::Generator('i'),
        Hom::Id('E'),
        Hom::Generator('i'),
        Hom::Generator('i'),
        Hom::Generator('s'),
    ]);
    assert_eq!(sch_sgraph.compose(path), Hom::Generator('t'));
}

#[test]
fn compose_identity_path_is_identity() {
    let c = sch_sgraph();
    assert_eq!(c.compose(Path::Id('V')), c.id('V'));
    assert_eq!(c.compose(Path::Id('V')), Hom::Id('V'));
}

#[test]
fn compose_single_morphism_path() {
    let c = sch_sgraph();
    assert_eq!(c.compose(Path::Chain(vec![Hom::Generator('s')])), Hom::Generator('s'));
    assert_eq!(c.compose(Path::Chain(vec![Hom::Id('E')])), Hom::Id('E'));
}

#[test]
fn identities_are_absorbed() {
    let c = sch_sgraph();
    for f in c.hom_generators() {
        let d = c.dom(&f);
        let e = c.cod(&f);
        assert_eq!(c.compose2(c.id(d), f), f);
        assert_eq!(c.compose2(f, c.id(e)), f);
    }
    assert_eq!(c.compose2(Hom::Id('E'), Hom::Id('E')), Hom::Id('E'));
}

#[test]
fn composites_follow_the_table() {
    let c = sch_sgraph();
    assert_eq!(c.compose2(Hom::Generator('i'), Hom::Generator('s')), Hom::Generator('t'));
    assert_eq!(c.compose2(Hom::Generator('i'), Hom::Generator('t')), Hom::Generator('s'));
    let lhs = c.compose2(c.compose2(Hom::Generator('i'), Hom::Generator('i')), Hom::Generator('s'));
    let rhs = c.compose2(Hom::Generator('i'), c.compose2(Hom::Generator('i'), Hom::Generator('s')));
    assert_eq!(lhs, rhs);
    assert_eq!(lhs, Hom::Generator('s'));
}

#[test]
fn generators_round_trip() {
    let c = sch_sgraph();
    let gens = c.hom_generators();
    assert_eq!(gens, vec![Hom::Generator('s'), Hom::Generator('t'), Hom::Generator('i')]);
    for f in gens {
        assert!(c.has_hom_generator(&f));
        assert!(c.has_hom(&f));
    }
    assert!(!c.has_hom_generator(&Hom::Id('E')));
    assert!(c.has_hom(&Hom::Id('E')));
    assert!(!c.has_hom(&Hom::Id('X')));
    assert!(!c.has_hom(&Hom::Generator('x')));
}

#[test]
fn objects_and_generators_by_end() {
    let c = sch_sgraph();
    assert_eq!(c.ob_generators(), vec!['V', 'E']);
    assert!(c.has_ob(&'V'));
    assert!(c.has_ob_generator(&'E'));
    assert!(!c.has_ob(&'X'));
    assert_eq!(
        c.generators_with_dom(&'E'),
        vec![Hom::Generator('s'), Hom::Generator('t'), Hom::Generator('i')]
    );
    assert_eq!(c.generators_with_dom(&'V'), vec![]);
    assert_eq!(c.generators_with_cod(&'V'), vec![Hom::Generator('s'), Hom::Generator('t')]);
    assert_eq!(c.generators_with_cod(&'E'), vec![Hom::Generator('i')]);
}

#[test]
fn adding_generators_twice() {
    let mut c: FinCategory<u32, u32> = FinCategory::new();
    assert!(c.add_ob_generator(1));
    assert!(!c.add_ob_generator(1));
    c.add_ob_generators(vec![2, 1, 2, 3]);
    assert_eq!(c.ob_generators(), vec![1, 2, 3]);
    assert!(c.add_hom_generator(10, 1, 2));
    assert!(!c.add_hom_generator(10, 2, 3));
    assert_eq!(c.hom_generators(), vec![Hom::Generator(10)]);
    assert_eq!(c.dom(&Hom::Generator(10)), 2);
    assert_eq!(c.cod(&Hom::Generator(10)), 3);
}

#[test]
fn edges_between_unknown_objects() {
    let mut c: FinCategory<u32, u32> = FinCategory::new();
    assert!(c.add_hom_generator(7, 100, 200));
    assert!(c.has_hom(&Hom::Generator(7)));
    assert!(!c.has_ob(&100));
    assert_eq!(c.dom(&Hom::Generator(7)), 100);
}

#[test]
fn set_composite_overwrites() {
    let mut c: FinCategory<u32, u32> = FinCategory::new();
    c.add_ob_generator(0);
    c.add_hom_generator(1, 0, 0);
    c.set_composite(1, 1, Hom::Generator(1));
    assert_eq!(c.compose2(Hom::Generator(1), Hom::Generator(1)), Hom::Generator(1));
    c.set_composite(1, 1, Hom::Id(0));
    assert_eq!(c.compose2(Hom::Generator(1), Hom::Generator(1)), Hom::Id(0));
}

#[test]
fn reflexive_graph_schema_is_total_and_associative() {
    let c = sch_sgraph();
    assert!(c.is_total());
    assert!(c.is_associative());
    assert!(c.can_compose(&Hom::Generator('i'), &Hom::Generator('s')));
    assert!(!c.can_compose(&Hom::Generator('s'), &Hom::Generator('i')));
    assert!(c.can_compose(&Hom::Id('V'), &Hom::Generator('i')));
}

#[test]
fn missing_composite_is_not_total() {
    let mut c: FinCategory<char, char> = FinCategory::new();
    c.add_ob_generators(vec!['V', 'E']);
    c.add_hom_generator('s', 'E', 'V');
    c.add_hom_generator('i', 'E', 'E');
    c.set_composite('i', 'i', Hom::Id('E'));
    assert!(!c.is_total());
    assert!(!c.can_compose(&Hom::Generator('i'), &Hom::Generator('s')));
    c.set_composite('i', 's', Hom::Generator('s'));
    assert!(c.is_total());
}

#[test]
fn non_associative_table_is_detected() {
    let mut c: FinCategory<char, char> = FinCategory::new();
    c.add_ob_generator('A');
    c.add_hom_generator('a', 'A', 'A');
    c.add_hom_generator('b', 'A', 'A');
    c.set_composite('a', 'a', Hom::Generator('b'));
    c.set_composite('a', 'b', Hom::Generator('b'));
    c.set_composite('b', 'a', Hom::Generator('a'));
    c.set_composite('b', 'b', Hom::Generator('b'));
    assert!(c.is_total());
    assert!(!c.is_associative());
    let a = Hom::Generator('a');
    assert_eq!(c.compose2(c.compose2(a, a), a), Hom::Generator('a'));
    assert_eq!(c.compose2(a, c.compose2(a, a)), Hom::Generator('b'));
}
