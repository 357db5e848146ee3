use tin::db::{element_type, Db};
use tin::element::{
    Apply, BiOp, BiOperator, Capture, Closure, Element, Module, Number, Parameter, Variable,
};
use tin::error::Error;
use tin::infer_types::{Event, InferTypesSystem, Observer};
use tin::ir::{Entity, Ident, Location};
use tin::store::Store;
use tin::ty::{AuxEntity, Conflict, ExpectedType, NumberKind, Type};

fn loc(start: u32, end: u32) -> Location {
    Location { start, end }
}

fn store_of(elements: Vec<Element>) -> Store {
    let mut store = Store::new();
    for (i, element) in elements.into_iter().enumerate() {
        let at = i as u32 * 10;
        store.add(element, loc(at, at + 5));
    }
    store
}

fn u32_sig() -> Element {
    Element::Number(Number::U32(0))
}

fn closure(parameters: Vec<usize>, statements: Vec<usize>, signature: usize, result: usize) -> Element {
    Element::Closure(Closure {
        captures: vec![],
        parameters: parameters.into_iter().map(Entity).collect(),
        statements: statements.into_iter().map(Entity).collect(),
        signature: Some(Entity(signature)),
        result: Entity(result),
    })
}

fn variable(name: u32, initializer: usize) -> Element {
    Element::Variable(Variable { name: Ident(name), initializer: Entity(initializer) })
}

fn apply(function: usize, parameters: Vec<usize>) -> Element {
    Element::Apply(Apply {
        function: Entity(function),
        parameters: parameters.into_iter().map(Entity).collect(),
    })
}

fn is_conflict(t: &Type) -> bool {
    matches!(t, Type::Conflict(_))
}

fn u32_fn(parameters: usize) -> Type {
    Type::Function(
        (0..parameters).map(|_| Type::Number(NumberKind::U32)).collect(),
        Box::new(Type::Number(NumberKind::U32)),
    )
}

// pickFirst = |a: u32, b: u32| -> u32 {
//   capture = |x: u32| -> u32 { a };
//   capture(b)
// };
// main = || -> u32 { pickFirst(1u32, 2u32) };
#[test]
fn entity_assignments() {
    let pick_first = 1;
    let main = 2;
    let (a, b, x, capture) = (3, 4, 5, 6);
    let elements = vec![
        /* 0 */ u32_sig(),
        /* 1 */ u32_sig(),
        /* 2 */ u32_sig(),
        /* 3 */ Element::Parameter(Parameter { name: Ident(a), signature: Some(Entity(0)) }),
        /* 4 */ Element::Parameter(Parameter { name: Ident(b), signature: Some(Entity(1)) }),
        /* 5 */ u32_sig(),
        /* 6 */ Element::Parameter(Parameter { name: Ident(x), signature: Some(Entity(5)) }),
        /* 7 */ Element::Capture(Capture { name: Ident(a), captured: Entity(3) }),
        /* 8 */ u32_sig(),
        /* 9 */
        Element::Closure(Closure {
            captures: vec![(Ident(a), Entity(7))],
            parameters: vec![Entity(6)],
            statements: vec![],
            signature: Some(Entity(8)),
            result: Entity(7),
        }),
        /* 10 */ variable(capture, 9),
        /* 11 */ apply(10, vec![4]),
        /* 12 */ closure(vec![3, 4], vec![10], 2, 11),
        /* 13 */ variable(pick_first, 12),
        /* 14 */ Element::Number(Number::U32(1)),
        /* 15 */ Element::Number(Number::U32(2)),
        /* 16 */ apply(13, vec![14, 15]),
        /* 17 */ u32_sig(),
        /* 18 */ closure(vec![], vec![], 17, 16),
        /* 19 */ variable(main, 18),
        /* 20 */
        Element::Module(Module {
            variables: vec![(Ident(pick_first), Entity(13)), (Ident(main), Entity(19))],
        }),
    ];
    let mut store = store_of(elements);
    assert_eq!(InferTypesSystem.run(&mut store), Ok(()));
    for t in store.types.iter() {
        assert!(!is_conflict(t.as_ref().unwrap()));
    }
    assert_eq!(store.types[13], Some(u32_fn(2)));
    assert_eq!(store.types[16], Some(Type::Number(NumberKind::U32)));
    assert_eq!(store.types[19], Some(u32_fn(0)));
}

// a = || -> u32 { b() };
// b = || -> u32 { a() };
fn mutual_recursion() -> Vec<Element> {
    vec![
        /* 0 */ u32_sig(),
        /* 1 */ apply(7, vec![]),
        /* 2 */ closure(vec![], vec![], 0, 1),
        /* 3 */ variable(1, 2),
        /* 4 */ u32_sig(),
        /* 5 */ apply(3, vec![]),
        /* 6 */ closure(vec![], vec![], 4, 5),
        /* 7 */ variable(2, 6),
        /* 8 */ Element::Module(Module { variables: vec![(Ident(1), Entity(3)), (Ident(2), Entity(7))] }),
    ]
}

#[test]
fn recursive_module_variables() {
    let mut store = store_of(mutual_recursion());
    assert_eq!(InferTypesSystem.run(&mut store), Ok(()));
    assert_eq!(store.types[2], Some(u32_fn(0)));
    assert_eq!(store.types[6], Some(u32_fn(0)));
    assert_eq!(store.types[1], Some(Type::Number(NumberKind::U32)));
    assert_eq!(store.types[5], Some(Type::Number(NumberKind::U32)));
}

#[test]
fn mutual_recursion_resolves_on_demand() {
    let mut db = Db::new(store_of(mutual_recursion()));
    assert_eq!(db.ty(Entity(8)).map(|_| ()), Ok(()));
    assert_eq!(db.ty(Entity(2)), Ok(u32_fn(0)));
    assert_eq!(db.ty(Entity(6)), Ok(u32_fn(0)));
}

// a = || -> u32 {
//   1f32 + 2f64
// };
fn float_addition() -> Store {
    let mut store = Store::new();
    store.add(Element::Number(Number::F32(1.0f32.to_bits())), loc(19, 23));
    store.add(Element::Number(Number::F64(2.0f64.to_bits())), loc(26, 30));
    store.add(
        Element::BiOp(BiOp { lhs: Entity(0), operator: BiOperator::Add, rhs: Entity(1) }),
        loc(19, 30),
    );
    store.add(u32_sig(), loc(11, 14));
    store.add(closure(vec![], vec![], 3, 2), loc(5, 33));
    store.add(variable(1, 4), loc(1, 33));
    store.add(Element::Module(Module { variables: vec![(Ident(1), Entity(5))] }), loc(0, 35));
    store
}

#[test]
fn type_error() {
    let mut store = float_addition();
    assert_eq!(InferTypesSystem.run(&mut store), Ok(()));
    let expected = Type::Conflict(Box::new(Conflict {
        expected: ExpectedType::Specific(Type::Number(NumberKind::F32)),
        actual: Type::Number(NumberKind::F64),
        main_location: loc(26, 30),
        aux: vec![AuxEntity { location: loc(19, 23), other_operand: Type::Number(NumberKind::F32) }],
    }));
    assert_eq!(store.types[2], Some(expected));
    assert_eq!(store.conflicts(), vec![Entity(2)]);
}

// a = || -> u32 { 1u32 + 2u32 };
#[test]
fn add_in_closure_resolves() {
    let mut store = store_of(vec![
        Element::Number(Number::U32(1)),
        Element::Number(Number::U32(2)),
        Element::BiOp(BiOp { lhs: Entity(0), operator: BiOperator::Add, rhs: Entity(1) }),
        u32_sig(),
        closure(vec![], vec![], 3, 2),
        variable(1, 4),
    ]);
    assert_eq!(InferTypesSystem.run(&mut store), Ok(()));
    assert_eq!(store.types[2], Some(Type::Number(NumberKind::U32)));
    assert_eq!(store.types[4], Some(u32_fn(0)));
    assert!(store.conflicts().is_empty());
}

#[test]
fn inference_is_idempotent() {
    let mut store = float_addition();
    assert_eq!(InferTypesSystem.run(&mut store), Ok(()));
    let first: Vec<Option<Type>> = store.types.iter().map(|t| t.as_ref().map(|t| t.duplicate())).collect();
    assert_eq!(InferTypesSystem.run(&mut store), Ok(()));
    assert_eq!(store.types, first);
}

#[test]
fn both_strategies_agree() {
    let mut store = float_addition();
    assert_eq!(InferTypesSystem.run(&mut store), Ok(()));
    let mut db = Db::new(float_addition());
    for i in 0..store.types.len() {
        assert_eq!(db.ty(Entity(i)).ok(), store.types[i].as_ref().map(|t| t.duplicate()));
    }
}

#[test]
fn compare_operator_is_not_implemented() {
    let mut store = store_of(vec![
        Element::Number(Number::U8(1)),
        Element::BiOp(BiOp { lhs: Entity(0), operator: BiOperator::Cmp, rhs: Entity(0) }),
    ]);
    assert_eq!(InferTypesSystem.run(&mut store), Err(Error::NotImplemented));
    assert!(store.types.iter().all(|t| t.is_none()));
}

#[test]
fn parameter_without_signature_stays_unresolved() {
    let mut store = store_of(vec![
        Element::Number(Number::I64(3)),
        Element::Parameter(Parameter { name: Ident(1), signature: None }),
        variable(2, 1),
    ]);
    assert_eq!(InferTypesSystem.run(&mut store), Err(Error::Unresolved(Entity(1))));
    assert_eq!(store.types[0], Some(Type::Number(NumberKind::I64)));
    assert!(store.types[1].is_none());
    assert!(store.types[2].is_none());
}

#[test]
fn cyclic_variables_fail_on_demand() {
    let mut db = Db::new(store_of(vec![variable(1, 1), variable(2, 0)]));
    assert_eq!(db.ty(Entity(0)), Err(Error::CyclicDependency(Entity(0))));
    assert!(db.in_flight.iter().all(|f| !f));
}

#[test]
fn unknown_entity_on_demand() {
    let mut db = Db::new(store_of(vec![u32_sig()]));
    assert_eq!(db.ty(Entity(4)), Err(Error::UnknownEntity(Entity(4))));
}

#[test]
fn element_without_annotation() {
    let mut db = Db::new(store_of(vec![u32_sig()]));
    let element = Element::Parameter(Parameter { name: Ident(1), signature: None });
    assert_eq!(element_type(&element, &mut db), Err(Error::MissingAnnotation));
    let element = Element::Parameter(Parameter { name: Ident(1), signature: Some(Entity(0)) });
    assert_eq!(element_type(&element, &mut db), Ok(Type::Number(NumberKind::U32)));
    let element = Element::BiOp(BiOp { lhs: Entity(0), operator: BiOperator::Cmp, rhs: Entity(0) });
    assert_eq!(element_type(&element, &mut db), Err(Error::NotImplemented));
}

struct Recorder(Vec<Event>);

impl Observer for Recorder {
    fn event(&mut self, event: Event) {
        self.0.push(event);
    }
}

#[test]
fn observer_sees_each_round() {
    let mut store = float_addition();
    let mut recorder = Recorder(vec![]);
    assert_eq!(InferTypesSystem.run_observed(&mut store, &mut recorder), Ok(()));
    let first_round: Vec<Event> = recorder.0.iter().copied().take_while(|e| *e != Event::RoundCommitted).collect();
    assert_eq!(first_round, vec![Event::Inferred(Entity(0)), Event::Inferred(Entity(1)), Event::Inferred(Entity(3))]);
    let inferred = recorder.0.iter().filter(|e| matches!(e, Event::Inferred(_))).count();
    assert_eq!(inferred, store.types.len());
}

#[test]
fn pulling_resolves_uncached_dependencies() {
    let mut db = Db::new(float_addition());
    let closure_element = db.store.elements[4].clone();
    let t = element_type(&closure_element, &mut db);
    assert_eq!(t, Ok(u32_fn(0)));
    assert!(db.store.types[3].is_some());
    assert!(db.in_flight.iter().all(|f| !f));
    assert_eq!(db.ty(Entity(6)).map(|_| ()), Ok(()));
}
