use tin::abi_type::{AbiScalar, AbiType};
use tin::element::{
    check_names_increasing, sort_bindings, BiOp, BiOperator, Closure, Element, Module, Record,
    Select, Tuple, UnOp, UnOperator,
};
use tin::graph::{Edge, Graph, IndexedKind, Label, NamedKind, Node, Style};
use tin::infer::{
    apply_type, bi_op_type, bool_op, find_field, if_integral_and_eq_then, or_op, select_type,
    un_op_type,
};
use tin::infer_types::InferTypesSystem;
use tin::ir::{Entity, Ident, Location};
use tin::store::Store;
use tin::ty::{
    bool_ty, AuxEntity, Conflict, ExpectedType, IntegralClass, NumberKind, ScalarClass, Type, Union,
};

fn left() -> Location {
    Location { start: 1, end: 2 }
}

fn right() -> Location {
    Location { start: 5, end: 6 }
}

fn num(kind: NumberKind) -> Type {
    Type::Number(kind)
}

fn record(fields: Vec<(u32, Type)>) -> Type {
    Type::Record(fields.into_iter().map(|(n, t)| (Ident(n), t)).collect())
}

fn union(labels: Vec<u32>) -> Type {
    Type::Union(Union { alternatives: labels.into_iter().map(Ident).collect() })
}

fn conflict(expected: ExpectedType, actual: Type, main: Location, aux: Vec<(Location, Type)>) -> Type {
    Type::Conflict(Box::new(Conflict {
        expected,
        actual,
        main_location: main,
        aux: aux
            .into_iter()
            .map(|(location, other_operand)| AuxEntity { location, other_operand })
            .collect(),
    }))
}

fn any_integral() -> ExpectedType {
    ExpectedType::ScalarClass(ScalarClass::Integral(IntegralClass::Any))
}

#[test]
fn comparisons_of_equal_types_are_boolean() {
    let a = record(vec![(1, num(NumberKind::U8)), (2, Type::String)]);
    for op in [BiOperator::Eq, BiOperator::Ne, BiOperator::Lt, BiOperator::Ge, BiOperator::Gt, BiOperator::Le] {
        assert_eq!(bi_op_type(op, left(), &a, right(), &a.duplicate()), Type::Boolean);
    }
}

#[test]
fn comparisons_of_different_records_conflict() {
    let a = record(vec![(1, num(NumberKind::U8))]);
    let b = record(vec![(1, num(NumberKind::U16))]);
    let expected = conflict(ExpectedType::Specific(a.duplicate()), b.duplicate(), right(), vec![(left(), a.duplicate())]);
    assert_eq!(bi_op_type(BiOperator::Lt, left(), &a, right(), &b), expected);
}

#[test]
fn arithmetic_keeps_the_operand_type() {
    let i = num(NumberKind::I16);
    assert_eq!(bi_op_type(BiOperator::Mul, left(), &i, right(), &i.duplicate()), i);
    let f = num(NumberKind::F64);
    assert_eq!(
        bi_op_type(BiOperator::BXor, left(), &i, right(), &f),
        conflict(ExpectedType::Specific(i.duplicate()), f.duplicate(), right(), vec![(left(), i.duplicate())])
    );
}

#[test]
fn logical_operators_need_booleans() {
    assert_eq!(bool_op(left(), &Type::Boolean, right(), &Type::Boolean), Type::Boolean);
    assert_eq!(
        bool_op(left(), &Type::Boolean, right(), &Type::String),
        conflict(ExpectedType::Specific(Type::Boolean), Type::String, right(), vec![(left(), Type::Boolean)])
    );
    assert_eq!(
        bi_op_type(BiOperator::XorNot, left(), &Type::String, right(), &Type::Boolean),
        conflict(ExpectedType::Specific(Type::Boolean), Type::String, left(), vec![(right(), Type::Boolean)])
    );
}

#[test]
fn or_extends_unions() {
    let u = union(vec![1, 2]);
    let once = or_op(left(), &u, right(), &Type::Symbol(Ident(3)));
    assert_eq!(once, union(vec![3, 2, 1]));
    let twice = or_op(left(), &once, right(), &Type::Symbol(Ident(3)));
    assert_eq!(twice, once);
    match twice {
        Type::Union(u) => assert_eq!(u.alternatives.len(), 3),
        _ => panic!("not a union"),
    }
}

#[test]
fn or_of_booleans_and_of_others() {
    assert_eq!(or_op(left(), &Type::Boolean, right(), &Type::Boolean), Type::Boolean);
    assert_eq!(
        or_op(left(), &union(vec![1]), right(), &Type::Boolean),
        conflict(ExpectedType::Symbol, Type::Boolean, right(), vec![(left(), union(vec![1]))])
    );
    assert_eq!(
        or_op(left(), &Type::Symbol(Ident(1)), right(), &Type::Symbol(Ident(2))),
        conflict(
            ExpectedType::AnyOf(vec![ExpectedType::Specific(Type::Boolean), ExpectedType::Union]),
            Type::Symbol(Ident(1)),
            left(),
            vec![(right(), Type::Symbol(Ident(2)))]
        )
    );
}

#[test]
fn union_with_is_duplicate_safe() {
    let u = Union { alternatives: vec![Ident(4)] };
    let w = u.with(Ident(4));
    assert_eq!(w.alternatives, vec![Ident(4)]);
    let w = u.with(Ident(5));
    assert!(w.contains(Ident(5)) && w.contains(Ident(4)));
    assert!(!u.contains(Ident(5)));
}

#[test]
fn unions_compare_as_sets() {
    assert_eq!(union(vec![1, 2]), union(vec![2, 1]));
    assert_ne!(union(vec![1, 2]), union(vec![1, 3]));
}

#[test]
fn shifts_need_integral_lhs_and_u32_rhs() {
    let lhs = num(NumberKind::I64);
    let u32_ty = num(NumberKind::U32);
    assert_eq!(bi_op_type(BiOperator::ShL, left(), &lhs, right(), &u32_ty), lhs);
    let u8_ty = num(NumberKind::U8);
    assert_eq!(
        bi_op_type(BiOperator::RotR, left(), &lhs, right(), &u8_ty),
        conflict(ExpectedType::Specific(u32_ty.duplicate()), u8_ty.duplicate(), right(), vec![(left(), lhs.duplicate())])
    );
    let f = num(NumberKind::F32);
    assert_eq!(
        if_integral_and_eq_then(left(), &f, right(), &u32_ty, &u32_ty, f.duplicate()),
        conflict(any_integral(), f.duplicate(), left(), vec![(right(), u32_ty.duplicate())])
    );
}

#[test]
fn unary_operators() {
    assert_eq!(un_op_type(UnOperator::Not, left(), &Type::Boolean), Type::Boolean);
    assert_eq!(
        un_op_type(UnOperator::Not, left(), &num(NumberKind::U8)),
        conflict(ExpectedType::Specific(Type::Boolean), num(NumberKind::U8), left(), vec![])
    );
    assert_eq!(un_op_type(UnOperator::BNot, left(), &num(NumberKind::I8)), num(NumberKind::I8));
    assert_eq!(un_op_type(UnOperator::Cl0, left(), &num(NumberKind::U64)), num(NumberKind::U32));
    assert_eq!(un_op_type(UnOperator::C1, left(), &num(NumberKind::I8)), num(NumberKind::U32));
    assert_eq!(
        un_op_type(UnOperator::Ct1, left(), &Type::Boolean),
        conflict(any_integral(), Type::Boolean, left(), vec![])
    );
    assert_eq!(un_op_type(UnOperator::Sqrt, left(), &num(NumberKind::F64)), num(NumberKind::F64));
    assert_eq!(
        un_op_type(UnOperator::Sqrt, left(), &num(NumberKind::U8)),
        conflict(ExpectedType::ScalarClass(ScalarClass::Fractional), num(NumberKind::U8), left(), vec![])
    );
}

#[test]
fn calls_match_parameters_exactly() {
    let f = Type::Function(vec![num(NumberKind::U32)], Box::new(num(NumberKind::U32)));
    assert_eq!(apply_type(left(), &f, vec![num(NumberKind::U32)]), num(NumberKind::U32));
    let expected = Type::Function(vec![num(NumberKind::I32)], Box::new(Type::Any));
    assert_eq!(
        apply_type(left(), &f, vec![num(NumberKind::I32)]),
        conflict(ExpectedType::Specific(expected), f.duplicate(), left(), vec![])
    );
}

#[test]
fn calling_a_non_function_conflicts() {
    let expected = Type::Function(vec![Type::String], Box::new(Type::Any));
    assert_eq!(
        apply_type(left(), &Type::Boolean, vec![Type::String]),
        conflict(ExpectedType::Specific(expected), Type::Boolean, left(), vec![])
    );
}

#[test]
fn select_reads_fields() {
    let r = record(vec![(1, Type::String), (7, num(NumberKind::I32))]);
    assert_eq!(select_type(left(), &r, Ident(7)), num(NumberKind::I32));
    assert_eq!(find_field(&vec![(Ident(1), Type::String)], Ident(2)), None);
    let expected = ExpectedType::Specific(record(vec![(9, Type::Any)]));
    assert_eq!(select_type(left(), &r, Ident(9)), conflict(expected, r.duplicate(), left(), vec![]));
    let expected = ExpectedType::Specific(record(vec![(9, Type::Any)]));
    assert_eq!(select_type(left(), &Type::String, Ident(9)), conflict(expected, Type::String, left(), vec![]));
}

#[test]
fn scalar_classes() {
    assert_eq!(num(NumberKind::U16).scalar_class(), ScalarClass::Integral(IntegralClass::Unsigned));
    assert_eq!(num(NumberKind::I32).scalar_class(), ScalarClass::Integral(IntegralClass::Signed));
    assert_eq!(num(NumberKind::F32).scalar_class(), ScalarClass::Fractional);
    assert_eq!(bool_ty().scalar_class(), ScalarClass::Boolean);
    assert_eq!(Type::Tuple(vec![]).scalar_class(), ScalarClass::Undefined);
}

#[test]
fn aggregates_and_selection_through_the_store() {
    let mut store = Store::new();
    store.add(Element::Number(tin::element::Number::U8(1)), left());
    store.add(Element::String("s".to_string()), left());
    store.add(Element::Tuple(Tuple { fields: vec![Entity(0), Entity(1)] }), left());
    store.add(Element::Record(Record { fields: vec![(Ident(1), Entity(0)), (Ident(2), Entity(2))] }), left());
    store.add(Element::Select(Select { record: Entity(3), field: Ident(2) }), right());
    store.add(Element::UnOp(UnOp { operator: UnOperator::BNot, operand: Entity(0) }), right());
    store.add(Element::BiOp(BiOp { lhs: Entity(5), operator: BiOperator::Eq, rhs: Entity(0) }), right());
    assert_eq!(InferTypesSystem.run(&mut store), Ok(()));
    let tuple = Type::Tuple(vec![num(NumberKind::U8), Type::String]);
    assert_eq!(store.types[2], Some(tuple.duplicate()));
    assert_eq!(store.types[3], Some(record(vec![(1, num(NumberKind::U8)), (2, tuple.duplicate())])));
    assert_eq!(store.types[4], Some(tuple));
    assert_eq!(store.types[6], Some(Type::Boolean));
    assert_eq!(store.location(Entity(4)), right());
    assert_eq!(store.ty(Entity(9)), None);
}

#[test]
fn names_must_increase() {
    assert!(check_names_increasing(&vec![(Ident(1), Entity(0)), (Ident(3), Entity(0))]));
    assert!(!check_names_increasing(&vec![(Ident(3), Entity(0)), (Ident(1), Entity(0))]));
    assert!(!check_names_increasing(&vec![(Ident(2), Entity(0)), (Ident(2), Entity(1))]));
    assert!(check_names_increasing(&vec![]));
    let element = Element::Record(Record { fields: vec![(Ident(2), Entity(0)), (Ident(2), Entity(1))] });
    assert!(!element.is_well_formed());
}

#[test]
fn graph_edges_follow_references() {
    let mut store = Store::new();
    store.add(Element::Number(tin::element::Number::U32(1)), left());
    store.add(Element::BiOp(BiOp { lhs: Entity(0), operator: BiOperator::Add, rhs: Entity(0) }), left());
    store.add(
        Element::Closure(Closure {
            captures: vec![(Ident(4), Entity(0))],
            parameters: vec![],
            statements: vec![Entity(1)],
            signature: Some(Entity(0)),
            result: Entity(1),
        }),
        left(),
    );
    let graph = Graph::new(&store);
    assert_eq!(graph.nodes(), vec![Node(Entity(0)), Node(Entity(1)), Node(Entity(2))]);
    let e = |s: usize, t: usize, label: Label| Edge { source: Node(Entity(s)), target: Node(Entity(t)), label };
    let edges = graph.edges();
    assert_eq!(
        edges,
        vec![
            e(1, 0, Label::BiLhs),
            e(1, 0, Label::BiRhs),
            e(2, 0, Label::Indexed(IndexedKind::ClosureCaptureUsage, 0)),
            e(2, 1, Label::Indexed(IndexedKind::ClosureStatement, 0)),
            e(2, 0, Label::ClosureSignature),
            e(2, 1, Label::ClosureResult),
        ]
    );
    assert_eq!(graph.source(&edges[2]), Node(Entity(2)));
    assert_eq!(graph.target(&edges[3]), Node(Entity(1)));
    assert_eq!(graph.edge_style(&edges[0]), Style::Solid);
    assert_eq!(graph.edge_style(&edges[3]), Style::Dashed);
    assert_eq!(graph.edge_style(&edges[4]), Style::Dotted);
    let named = e(0, 0, Label::Named(NamedKind::ClosureCaptureDefinition, Ident(1)));
    assert_eq!(graph.edge_style(&named), Style::Dashed);
}

#[test]
fn abi_types() {
    assert_eq!(AbiType::from_ir_type(&num(NumberKind::U16)), AbiType::Scalar(AbiScalar::I16));
    assert_eq!(AbiType::from_ir_type(&num(NumberKind::F64)), AbiType::Scalar(AbiScalar::F64));
    assert_eq!(AbiType::from_ir_type(&Type::Symbol(Ident(1))), AbiType::Scalar(AbiScalar::I8));
    assert_eq!(AbiType::from_ir_type(&union(vec![1, 2])), AbiType::Scalar(AbiScalar::B1));
    assert_eq!(AbiType::from_ir_type(&union(vec![1, 2, 3])), AbiType::Scalar(AbiScalar::I8));
    assert_eq!(AbiType::from_ir_type(&union((0..300).collect())), AbiType::Scalar(AbiScalar::I16));
    assert_eq!(AbiType::from_ir_type(&Type::String), AbiType::Ptr);
    assert_eq!(AbiType::Ptr.into_specific(AbiScalar::I64), AbiScalar::I64);
    assert_eq!(AbiType::Scalar(AbiScalar::I8).into_specific(AbiScalar::I64), AbiScalar::I8);
}

#[test]
fn operator_symbols() {
    assert_eq!(UnOperator::Not.symbol(), "!");
    assert_eq!(UnOperator::Cls.symbol(), "#^-");
    assert_eq!(BiOperator::Cmp.symbol(), "<=>");
    assert_eq!(BiOperator::BXorNot.symbol(), "~^!");
    assert_eq!(BiOperator::RotR.symbol(), ">->");
}

#[test]
fn records_sort_their_fields() {
    let fields = vec![(Ident(5), Entity(0)), (Ident(1), Entity(2)), (Ident(3), Entity(1))];
    let r = Record::new(&fields).unwrap();
    assert_eq!(r.fields, vec![(Ident(1), Entity(2)), (Ident(3), Entity(1)), (Ident(5), Entity(0))]);
    assert!(Element::Record(r).is_well_formed());
    assert!(Record::new(&vec![(Ident(2), Entity(0)), (Ident(2), Entity(1))]).is_none());
    let m = Module::new(&vec![(Ident(9), Entity(3)), (Ident(4), Entity(4))]).unwrap();
    assert_eq!(m.variables, vec![(Ident(4), Entity(4)), (Ident(9), Entity(3))]);
    assert_eq!(sort_bindings(&vec![]), Some(vec![]));
}

#[test]
fn record_types_do_not_depend_on_field_order() {
    let mut store = Store::new();
    store.add(Element::Number(tin::element::Number::U8(1)), left());
    store.add(Element::String("s".to_string()), left());
    let a = Record::new(&vec![(Ident(2), Entity(1)), (Ident(1), Entity(0))]).unwrap();
    let b = Record::new(&vec![(Ident(1), Entity(0)), (Ident(2), Entity(1))]).unwrap();
    store.add(Element::Record(a), left());
    store.add(Element::Record(b), left());
    store.add(Element::BiOp(BiOp { lhs: Entity(2), operator: BiOperator::Eq, rhs: Entity(3) }), right());
    assert_eq!(InferTypesSystem.run(&mut store), Ok(()));
    assert_eq!(store.types[2], store.types[3]);
    assert_eq!(store.types[4], Some(Type::Boolean));
}

#[test]
fn expected_shapes_compare_structurally() {
    let a = ExpectedType::AnyOf(vec![ExpectedType::Specific(Type::Boolean), ExpectedType::Union]);
    assert_eq!(a, a.duplicate());
    assert_ne!(a, ExpectedType::AnyOf(vec![ExpectedType::Union, ExpectedType::Specific(Type::Boolean)]));
    assert_ne!(ExpectedType::Symbol, ExpectedType::Union);
}

#[test]
fn union_size_counts_distinct_alternatives() {
    let u = Union { alternatives: vec![Ident(1), Ident(2), Ident(1)] };
    assert_eq!(u.size(), 2);
    assert_eq!(u.distinct(), vec![Ident(1), Ident(2)]);
    assert_eq!(AbiType::from_ir_type(&union(vec![1, 2, 1])), AbiType::Scalar(AbiScalar::B1));
    assert_eq!(AbiType::from_ir_type(&union(vec![1, 2, 3, 3])), AbiType::Scalar(AbiScalar::I8));
}

#[test]
fn scope_names_are_kept_per_entity() {
    let mut store = Store::new();
    let e = store.add(Element::Number(tin::element::Number::U8(1)), left());
    assert_eq!(store.symbol(e), None);
    store.set_symbol(e, Ident(7));
    assert_eq!(store.symbol(e), Some(Ident(7)));
    assert_eq!(store.symbol(Entity(5)), None);
}
