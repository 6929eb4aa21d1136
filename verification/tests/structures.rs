use symbolica_community::arguments::{
    ConvertibleToAbstractIndex, ConvertibleToDimension, DimensionValue, IndexValue, RepOrExpr,
    RepresentationCall,
};
use symbolica_community::representations::initialize;
use symbolica_community::expr::{expr_eq, Expr};
use symbolica_community::indexing::{
    expanded_index, flat_index, get_item, is_item_defined, size_of, strides_of, IndexingError, ItemValue,
    SliceOrIntOrExpanded,
};
use symbolica_community::slots::{AbstractIndex, Dimension};
use symbolica_community::structure::{
    PossiblyIndexed, SpensoError, SpensoRepresentation, SpensoSlot, SpensoStucture, StructureError,
    TensorNamespace,
};

fn v(s: &str) -> Expr {
    Expr::Var(s.to_string())
}

fn n(i: i64) -> Expr {
    Expr::Num(i)
}

fn f(name: &str, args: Vec<Expr>) -> Expr {
    Expr::Fun(name.to_string(), args)
}

fn assert_same(a: &Expr, b: &Expr) {
    assert!(expr_eq(a, b), "got {:?}, expected {:?}", a, b);
}

fn sym(s: &str) -> ConvertibleToAbstractIndex {
    ConvertibleToAbstractIndex::Aind(AbstractIndex::Symbol(s.to_string()))
}

#[test]
fn sizes_and_strides() {
    assert_eq!(size_of(&vec![2, 3, 4]), 24);
    assert_eq!(size_of(&vec![]), 1);
    assert_eq!(strides_of(&vec![2, 3, 4]), vec![12, 4, 1]);
}

#[test]
fn flat_and_expanded_indices() {
    let ds = vec![2, 3];
    assert_eq!(flat_index(&ds, &vec![1, 2]), Ok(5));
    assert_eq!(flat_index(&ds, &vec![0, 1]), Ok(1));
    assert_eq!(expanded_index(&ds, 5), Ok(vec![1, 2]));
    assert_eq!(expanded_index(&ds, 3), Ok(vec![1, 0]));
    for i in 0..6 {
        let e = expanded_index(&ds, i).unwrap();
        assert_eq!(flat_index(&ds, &e), Ok(i));
    }
}

#[test]
fn indexing_errors() {
    let ds = vec![2, 3];
    assert_eq!(flat_index(&ds, &vec![1]), Err(IndexingError::MismatchedOrder(1, 2)));
    assert_eq!(flat_index(&ds, &vec![2, 0]), Err(IndexingError::OutOfBounds));
    assert_eq!(expanded_index(&ds, 6), Err(IndexingError::OutOfBounds));
}

#[test]
fn get_item_by_slice() {
    let ds = vec![2, 2];
    match get_item(&ds, &SliceOrIntOrExpanded::Slice(0, 4, 2, 2)) {
        Ok(ItemValue::IndexList(v)) => assert_eq!(v, vec![vec![0, 0], vec![1, 0]]),
        other => panic!("unexpected {:?}", other),
    }
    match get_item(&ds, &SliceOrIntOrExpanded::Int(3)) {
        Ok(ItemValue::Indices(v)) => assert_eq!(v, vec![1, 1]),
        other => panic!("unexpected {:?}", other),
    }
    match get_item(&ds, &SliceOrIntOrExpanded::Expanded(vec![1, 0])) {
        Ok(ItemValue::Flat(i)) => assert_eq!(i, 2),
        other => panic!("unexpected {:?}", other),
    }
}

#[test]
fn indexing_a_structure_of_size_zero() {
    let ds = vec![2, 0];
    let expanded = SliceOrIntOrExpanded::Expanded(vec![0, 0]);
    assert!(is_item_defined(&ds, &expanded));
    assert!(matches!(get_item(&ds, &expanded), Err(IndexingError::OutOfBounds)));
    let short = SliceOrIntOrExpanded::Expanded(vec![0]);
    assert!(matches!(get_item(&ds, &short), Err(IndexingError::MismatchedOrder(1, 2))));
    let empty = SliceOrIntOrExpanded::Slice(0, 0, 1, 0);
    assert!(is_item_defined(&ds, &empty));
    match get_item(&ds, &empty) {
        Ok(ItemValue::IndexList(v)) => assert!(v.is_empty()),
        other => panic!("unexpected {:?}", other),
    }
    let backwards = SliceOrIntOrExpanded::Slice(-1, -1, -1, 0);
    assert!(is_item_defined(&ds, &backwards));
    match get_item(&ds, &backwards) {
        Ok(ItemValue::IndexList(v)) => assert!(v.is_empty()),
        other => panic!("unexpected {:?}", other),
    }
    assert!(!is_item_defined(&ds, &SliceOrIntOrExpanded::Int(0)));
    assert!(!is_item_defined(&ds, &SliceOrIntOrExpanded::Slice(0, 2, 1, 2)));
    assert!(is_item_defined(&vec![2, 3], &SliceOrIntOrExpanded::Int(7)));
    assert!(is_item_defined(&vec![0, 3], &SliceOrIntOrExpanded::Int(0)));
    assert!(matches!(get_item(&vec![0, 3], &SliceOrIntOrExpanded::Int(0)), Err(IndexingError::OutOfBounds)));
}

#[test]
fn metric_structure_and_its_symbolic_form() {
    let g = SpensoStucture::metric(SpensoRepresentation::mink(Dimension::Concrete(4)));
    assert_eq!(g.structure.name.as_deref(), Some("g"));
    assert_eq!(g.structure.reps.len(), 2);
    let e = g.symbolic(vec![sym("mu"), sym("nu")], None).unwrap();
    assert_same(&e, &f("g", vec![f("mink", vec![n(4), v("mu")]), f("mink", vec![n(4), v("nu")])]));
    assert_eq!(g.__len__(), 16);
}

#[test]
fn symbolic_with_additional_arguments() {
    let g = SpensoStucture::gamma4D(TensorNamespace::Algebra);
    let args = vec![sym("p"), ConvertibleToAbstractIndex::Separator, sym("mu"), sym("i"), sym("j")];
    let e = g.symbolic(args, Some(vec![v("x")])).unwrap();
    let expected = f(
        "gamma",
        vec![
            v("p"),
            v("x"),
            f("mink", vec![n(4), v("mu")]),
            f("bis", vec![n(4), v("i")]),
            f("bis", vec![n(4), v("j")]),
        ],
    );
    assert_same(&e, &expected);
}

#[test]
fn symbolic_refusals() {
    let g = SpensoStucture::metric(SpensoRepresentation::euc(Dimension::Concrete(3)));
    match g.symbolic(vec![sym("mu")], None) {
        Err(StructureError::WrongNumberOfIndices(given, order)) => {
            assert_eq!(given, 1);
            assert_eq!(order, 2);
        }
        other => panic!("unexpected {:?}", other),
    }
    let args = vec![ConvertibleToAbstractIndex::Separator, sym("mu"), ConvertibleToAbstractIndex::Separator];
    assert!(matches!(g.symbolic(args, None), Err(StructureError::RepeatedSeparator)));
}

#[test]
fn index_builds_slots() {
    let g = SpensoStucture::metric(SpensoRepresentation::mink(Dimension::Concrete(4)));
    let idx = g.index(vec![sym("mu"), sym("nu")], None, false).unwrap();
    assert_eq!(idx.structure.slots.len(), 2);
    let e = idx.structure.to_symbolic().unwrap();
    assert_same(&e, &f("g", vec![f("mink", vec![n(4), v("mu")]), f("mink", vec![n(4), v("nu")])]));
    let bad = g.index(vec![sym("mu"), ConvertibleToAbstractIndex::Atom(Expr::Add(vec![v("a"), v("b")]))], None, false);
    assert!(matches!(bad, Err(StructureError::NotAnIndex(_, false))));
    let cooked = g
        .index(vec![sym("mu"), ConvertibleToAbstractIndex::Atom(f("f", vec![v("a")]))], None, true)
        .unwrap();
    let e = cooked.structure.to_symbolic().unwrap();
    assert_same(&e, &f("g", vec![f("mink", vec![n(4), v("mu")]), f("mink", vec![n(4), v("f_a")])]));
}

#[test]
fn symbolic_dimension_cannot_be_indexed() {
    let g = SpensoStucture::gammadD(&v("d")).unwrap();
    assert!(matches!(g.__getitem__(&SliceOrIntOrExpanded::Int(0)), Err(IndexingError::SymbolicDimension)));
    assert!(matches!(SpensoStucture::gammadD(&n(4)), Err(StructureError::NotASymbol(_))));
}

#[test]
fn indices_can_be_indexed_by_their_slots() {
    let g = SpensoStucture::metric(SpensoRepresentation::euc(Dimension::Concrete(3)));
    let idx = g.index(vec![sym("a"), sym("b")], None, false).unwrap();
    assert_eq!(idx.__len__(), 9);
    match idx.__getitem__(&SliceOrIntOrExpanded::Int(4)) {
        Ok(ItemValue::Indices(v)) => assert_eq!(v, vec![1, 1]),
        other => panic!("unexpected {:?}", other),
    }
}

#[test]
fn reading_indices_and_dimensions() {
    match ConvertibleToAbstractIndex::extract_bound(&IndexValue::Char(';')) {
        ConvertibleToAbstractIndex::Separator => {}
        other => panic!("unexpected {:?}", other),
    }
    match ConvertibleToAbstractIndex::extract_bound(&IndexValue::Int(-3)) {
        ConvertibleToAbstractIndex::Aind(AbstractIndex::Dualize(3)) => {}
        other => panic!("unexpected {:?}", other),
    }
    match ConvertibleToAbstractIndex::extract_bound(&IndexValue::Text("mu".to_string())) {
        ConvertibleToAbstractIndex::Aind(AbstractIndex::Symbol(s)) => assert_eq!(s, "mu"),
        other => panic!("unexpected {:?}", other),
    }
    match ConvertibleToDimension::extract_bound(&DimensionValue::Text("d".to_string())) {
        Ok(ConvertibleToDimension(Dimension::Symbolic(s))) => assert_eq!(s, "spenso_python::d"),
        other => panic!("unexpected {:?}", other),
    }
    match ConvertibleToDimension::extract_bound(&DimensionValue::Int(5)) {
        Ok(ConvertibleToDimension(Dimension::Concrete(5))) => {}
        other => panic!("unexpected {:?}", other),
    }
    assert!(ConvertibleToDimension::extract_bound(&DimensionValue::Expression(n(2))).is_err());
}

#[test]
fn dual_and_trace_of_indexed_structures() {
    let g = SpensoStucture::metric(SpensoRepresentation::mink(Dimension::Concrete(4)));
    let idx = g.index(vec![sym("mu"), sym("mu")], None, false).unwrap();
    let mut p = PossiblyIndexed::Indexed(idx);
    p.trace_out();
    match &p {
        PossiblyIndexed::Indexed(s) => assert!(s.structure.slots.is_empty()),
        other => panic!("unexpected {:?}", other),
    }
}

#[test]
fn reindex_assigns_new_indices() {
    let g = SpensoStucture::metric(SpensoRepresentation::mink(Dimension::Concrete(4)));
    let idx = g.index(vec![sym("mu"), sym("nu")], None, false).unwrap();
    let re = idx
        .reindex(&vec![AbstractIndex::Symbol("a".to_string()), AbstractIndex::Normal(2)])
        .unwrap();
    let e = re.structure.to_symbolic().unwrap();
    assert_same(&e, &f("g", vec![f("mink", vec![n(4), v("a")]), f("mink", vec![n(4), n(2)])]));
    match idx.reindex(&vec![AbstractIndex::Normal(1)]) {
        Err(StructureError::WrongNumberOfIndices(1, 2)) => {}
        other => panic!("unexpected {:?}", other),
    }
    let un = PossiblyIndexed::Unindexed(SpensoStucture::metric(SpensoRepresentation::euc(Dimension::Concrete(2))));
    let re = un.reindex(&vec![AbstractIndex::Normal(0), AbstractIndex::Dualize(1)]).unwrap();
    let e = re.structure.to_symbolic().unwrap();
    assert_same(&e, &f("g", vec![f("euc", vec![n(2), n(0)]), f("euc", vec![n(2), n(-1)])]));
}

#[test]
fn merge_at_drops_the_contracted_pair() {
    let g = SpensoStucture::metric(SpensoRepresentation::mink(Dimension::Concrete(4)));
    let a = PossiblyIndexed::Indexed(g.index(vec![sym("mu"), sym("nu")], None, false).unwrap());
    let b = PossiblyIndexed::Indexed(g.index(vec![sym("nu"), sym("rho")], None, false).unwrap());
    match a.merge_at(&b, (1, 0)) {
        PossiblyIndexed::Indexed(m) => {
            let e = m.structure.to_symbolic().unwrap();
            assert_same(&e, &f("g", vec![f("mink", vec![n(4), v("mu")]), f("mink", vec![n(4), v("rho")])]));
        }
        other => panic!("unexpected {:?}", other),
    }
}

#[test]
fn characters_name_symbolic_indices() {
    match ConvertibleToAbstractIndex::extract_bound(&IndexValue::Char('a')) {
        ConvertibleToAbstractIndex::Aind(AbstractIndex::Symbol(s)) => assert_eq!(s, "a"),
        other => panic!("unexpected {:?}", other),
    }
}

#[test]
fn refusals_without_a_name_or_with_a_separator() {
    let rep = SpensoRepresentation::mink(Dimension::Concrete(4));
    let nameless = SpensoStucture::from_list(
        vec![RepOrExpr::Rep(rep.representation.copy()), RepOrExpr::Expression(v("x"))],
        None,
    )
    .unwrap();
    assert!(matches!(nameless.symbolic(vec![sym("mu")], None), Err(StructureError::NoName)));
    let idx = nameless.index(vec![sym("mu")], None, false).unwrap();
    assert!(matches!(idx.to_expression(), Err(StructureError::NoName)));
    assert!(matches!(PossiblyIndexed::Indexed(idx).to_key(), Err(SpensoError::NoName)));
    assert!(matches!(rep.call(ConvertibleToAbstractIndex::Separator), Err(StructureError::SeparatorAsIndex)));
    match rep.call(sym("mu")) {
        Ok(RepresentationCall::Slot(s)) => {
            assert_same(&s.to_expression(), &f("mink", vec![n(4), v("mu")]));
        }
        other => panic!("unexpected {:?}", other),
    }
    let named = SpensoStucture::from_list(vec![RepOrExpr::Rep(rep.representation.copy())], Some(v("p"))).unwrap();
    let e = named.symbolic(vec![sym("mu")], None).unwrap();
    assert_same(&e, &f("p", vec![f("mink", vec![n(4), v("mu")])]));
    assert!(matches!(
        SpensoStucture::from_list(vec![], Some(n(1))),
        Err(StructureError::NotASymbol(_))
    ));
}

#[test]
fn registering_a_slot() {
    let mut t = initialize();
    let s = SpensoSlot::register_new(&mut t, "flav", 3, &IndexValue::Char('q'), true).unwrap();
    assert_same(&s.to_expression(), &f("flav", vec![n(3), v("q")]));
    assert_eq!(t.entries().len(), 9);
    assert!(matches!(
        SpensoSlot::register_new(&mut t, "flav", 3, &IndexValue::Expression(n(2)), true),
        Err(StructureError::NotASymbol(_))
    ));
    let r = SpensoRepresentation::register_new(&mut t, "gen", ConvertibleToDimension(Dimension::Concrete(2)), true);
    assert_same(&r.to_expression(), &f("gen", vec![n(2)]));
    assert_eq!(t.entries().len(), 10);
}
