//! The typing rules: one rule per kind of element.
//!
//! A rule reads the types already known for the entities that the element
//! refers to and gives the element's type, or nothing while one of them is
//! still unknown.  A type error is a type too: the rule then gives a
//! `Conflict`.
use vstd::prelude::*;

use crate::element::{names_increasing, BiOperator, Element, Number, UnOperator};
use crate::ir::{Entity, Ident, Location};
use crate::ty::{
    fields_increasing, lemma_aux_wf, lemma_expecteds_wf, lemma_fields_wf, lemma_tys_wf,
    lemma_view_variant, AuxEntity, Conflict, ExpectedTy, ExpectedType,
    IntegralClass, NumberKind,
    ScalarClass, Ty, Type,
};

verus! {

/// The view of a table of known types, indexed by entity.
pub open spec fn table_view(types: Seq<Option<Type>>) -> Seq<Option<Ty>> {
    Seq::new(
        types.len(),
        |i: int|
            match types[i] {
                Some(t) => Some(t@),
                None => None,
            },
    )
}

/// `b` keeps every type known in `a`, and may know more.
pub open spec fn extends(a: Seq<Option<Ty>>, b: Seq<Option<Ty>>) -> bool {
    &&& a.len() == b.len()
    &&& forall|i: int| 0 <= i < a.len() && (#[trigger] a[i]) is Some ==> b[i] == a[i]
}

/// The view of an optional type.
pub open spec fn option_view(t: Option<Type>) -> Option<Ty> {
    match t {
        Some(t) => Some(t@),
        None => None,
    }
}

/// The known type of an entity; entities outside the table have none.
pub open spec fn type_of(types: Seq<Option<Ty>>, e: Entity) -> Option<Ty> {
    if e.0 < types.len() {
        types[e.0 as int]
    } else {
        None
    }
}

/// The source location of an entity; entities outside the table get an
/// empty span at the start.
pub open spec fn location_of(locations: Seq<Location>, e: Entity) -> Location {
    if e.0 < locations.len() {
        locations[e.0 as int]
    } else {
        Location { start: 0, end: 0 }
    }
}

/// Whether the types of all the given entities are known.
pub open spec fn all_known(types: Seq<Option<Ty>>, es: Seq<Entity>) -> bool {
    forall|i: int| 0 <= i < es.len() ==> type_of(types, #[trigger] es[i]) is Some
}

/// The known types of the given entities, in order.
pub open spec fn types_of(types: Seq<Option<Ty>>, es: Seq<Entity>) -> Seq<Ty> {
    Seq::new(es.len(), |i: int| type_of(types, es[i]).unwrap())
}

/// Whether the types of the entities of all the given bindings are known.
pub open spec fn all_bindings_known(types: Seq<Option<Ty>>, bindings: Seq<(Ident, Entity)>) -> bool {
    forall|i: int| 0 <= i < bindings.len() ==> type_of(types, #[trigger] bindings[i].1) is Some
}

/// The record type of a list of bindings: each name with its entity's type.
pub open spec fn bindings_type(types: Seq<Option<Ty>>, bindings: Seq<(Ident, Entity)>) -> Ty {
    Ty::Record(
        Seq::new(bindings.len(), |i: int| (bindings[i].0, type_of(types, bindings[i].1).unwrap())),
    )
}

pub open spec fn conflict(
    expected: ExpectedTy,
    actual: Ty,
    main: Location,
    aux: Seq<(Location, Ty)>,
) -> Ty {
    Ty::Conflict(Box::new(expected), Box::new(actual), main, aux)
}

pub open spec fn spec_number_kind(n: Number) -> NumberKind {
    match n {
        Number::U8(_) => NumberKind::U8,
        Number::U16(_) => NumberKind::U16,
        Number::U32(_) => NumberKind::U32,
        Number::U64(_) => NumberKind::U64,
        Number::I8(_) => NumberKind::I8,
        Number::I16(_) => NumberKind::I16,
        Number::I32(_) => NumberKind::I32,
        Number::I64(_) => NumberKind::I64,
        Number::F32(_) => NumberKind::F32,
        Number::F64(_) => NumberKind::F64,
    }
}

/// Both operands must have the same type; the result is `result`.
pub open spec fn spec_if_eq_then(
    lhs_location: Location,
    lhs: Ty,
    rhs_location: Location,
    rhs: Ty,
    result: Ty,
) -> Ty {
    if lhs == rhs {
        result
    } else {
        conflict(ExpectedTy::Specific(lhs), rhs, rhs_location, seq![(lhs_location, lhs)])
    }
}

/// Both operands must be booleans; so is the result.
pub open spec fn spec_bool_op(lhs_location: Location, lhs: Ty, rhs_location: Location, rhs: Ty) -> Ty {
    if lhs == Ty::Boolean {
        if rhs == Ty::Boolean {
            Ty::Boolean
        } else {
            conflict(
                ExpectedTy::Specific(Ty::Boolean),
                rhs,
                rhs_location,
                seq![(lhs_location, lhs)],
            )
        }
    } else {
        conflict(ExpectedTy::Specific(Ty::Boolean), lhs, lhs_location, seq![(rhs_location, rhs)])
    }
}

/// A union extended by a symbol, or the logical or of two booleans.
pub open spec fn spec_or_op(lhs_location: Location, lhs: Ty, rhs_location: Location, rhs: Ty) -> Ty {
    match lhs {
        Ty::Union(alternatives) => match rhs {
            Ty::Symbol(s) => Ty::Union(alternatives.insert(s)),
            _ => conflict(ExpectedTy::Symbol, rhs, rhs_location, seq![(lhs_location, lhs)]),
        },
        Ty::Boolean => spec_bool_op(lhs_location, lhs, rhs_location, rhs),
        _ => conflict(
            ExpectedTy::AnyOf(seq![ExpectedTy::Specific(Ty::Boolean), ExpectedTy::Union]),
            lhs,
            lhs_location,
            seq![(rhs_location, rhs)],
        ),
    }
}

/// The operand must be of an integral type; the result is `result`.
pub open spec fn spec_if_integral_then(location: Location, t: Ty, result: Ty) -> Ty {
    if t.scalar_class() is Integral {
        result
    } else {
        conflict(
            ExpectedTy::ScalarClass(ScalarClass::Integral(IntegralClass::Any)),
            t,
            location,
            seq![],
        )
    }
}

/// The left operand must be integral and the right one exactly `expected`.
pub open spec fn spec_if_integral_and_eq_then(
    lhs_location: Location,
    lhs: Ty,
    rhs_location: Location,
    rhs: Ty,
    expected: Ty,
    result: Ty,
) -> Ty {
    if lhs.scalar_class() is Integral {
        if rhs == expected {
            result
        } else {
            conflict(ExpectedTy::Specific(expected), rhs, rhs_location, seq![(lhs_location, lhs)])
        }
    } else {
        conflict(
            ExpectedTy::ScalarClass(ScalarClass::Integral(IntegralClass::Any)),
            lhs,
            lhs_location,
            seq![(rhs_location, rhs)],
        )
    }
}

/// The operand must be of a fractional type; the result is `result`.
pub open spec fn spec_if_fractional_then(location: Location, t: Ty, result: Ty) -> Ty {
    if t.scalar_class() is Fractional {
        result
    } else {
        conflict(ExpectedTy::ScalarClass(ScalarClass::Fractional), t, location, seq![])
    }
}

/// Or-ing a union with a symbol adds the symbol to the union, and doing it
/// again with the same symbol adds nothing more.
pub proof fn lemma_or_grows_union(
    lhs_location: Location,
    alternatives: Set<Ident>,
    rhs_location: Location,
    symbol: Ident,
)
    ensures
        spec_or_op(lhs_location, Ty::Union(alternatives), rhs_location, Ty::Symbol(symbol))
            == Ty::Union(alternatives.insert(symbol)),
        spec_or_op(
            lhs_location,
            spec_or_op(lhs_location, Ty::Union(alternatives), rhs_location, Ty::Symbol(symbol)),
            rhs_location,
            Ty::Symbol(symbol),
        ) == spec_or_op(lhs_location, Ty::Union(alternatives), rhs_location, Ty::Symbol(symbol)),
{
    assert(alternatives.insert(symbol).insert(symbol) =~= alternatives.insert(symbol));
}

/// The type of an unary operator application, given its operand's type.
pub open spec fn spec_un_op(operator: UnOperator, location: Location, t: Ty) -> Ty {
    match operator {
        UnOperator::Not => if t == Ty::Boolean {
            Ty::Boolean
        } else {
            conflict(ExpectedTy::Specific(Ty::Boolean), t, location, seq![])
        },
        UnOperator::BNot => spec_if_integral_then(location, t, t),
        UnOperator::Sqrt => spec_if_fractional_then(location, t, t),
        _ => spec_if_integral_then(location, t, Ty::Number(NumberKind::U32)),
    }
}

pub open spec fn is_comparison(operator: BiOperator) -> bool {
    operator == BiOperator::Eq || operator == BiOperator::Ne || operator == BiOperator::Lt
        || operator == BiOperator::Ge || operator == BiOperator::Gt || operator == BiOperator::Le
}

pub open spec fn is_arithmetic(operator: BiOperator) -> bool {
    operator == BiOperator::Add || operator == BiOperator::Sub || operator == BiOperator::Mul
        || operator == BiOperator::Div || operator == BiOperator::Rem || operator == BiOperator::BAnd
        || operator == BiOperator::BOr || operator == BiOperator::BXor || operator
        == BiOperator::BAndNot || operator == BiOperator::BOrNot || operator == BiOperator::BXorNot
}

pub open spec fn is_logical(operator: BiOperator) -> bool {
    operator == BiOperator::And || operator == BiOperator::Xor || operator == BiOperator::AndNot
        || operator == BiOperator::OrNot || operator == BiOperator::XorNot
}

/// The type of a binary operator application, given its operands' types.
pub open spec fn spec_bi_op(
    operator: BiOperator,
    lhs_location: Location,
    lhs: Ty,
    rhs_location: Location,
    rhs: Ty,
) -> Ty
    recommends
        operator != BiOperator::Cmp,
{
    if is_comparison(operator) {
        spec_if_eq_then(lhs_location, lhs, rhs_location, rhs, Ty::Boolean)
    } else if is_arithmetic(operator) {
        spec_if_eq_then(lhs_location, lhs, rhs_location, rhs, lhs)
    } else if operator == BiOperator::Or {
        spec_or_op(lhs_location, lhs, rhs_location, rhs)
    } else if is_logical(operator) {
        spec_bool_op(lhs_location, lhs, rhs_location, rhs)
    } else {
        spec_if_integral_and_eq_then(
            lhs_location,
            lhs,
            rhs_location,
            rhs,
            Ty::Number(NumberKind::U32),
            lhs,
        )
    }
}

/// The type of the field `name` of a record type's fields, the first one
/// that has that name.
pub open spec fn record_field(fields: Seq<(Ident, Ty)>, name: Ident) -> Option<Ty>
    decreases fields.len(),
{
    if fields.len() == 0 {
        None
    } else if fields[0].0 == name {
        Some(fields[0].1)
    } else {
        record_field(fields.drop_first(), name)
    }
}

/// The shape that a field projection expects: a record with that field.
pub open spec fn select_expected(field: Ident) -> ExpectedTy {
    ExpectedTy::Specific(Ty::Record(seq![(field, Ty::Any)]))
}

/// The type of a field projection, given the projected entity's type.
pub open spec fn spec_select(location: Location, record: Ty, field: Ident) -> Ty {
    match record {
        Ty::Record(fields) => match record_field(fields, field) {
            Some(t) => t,
            None => conflict(select_expected(field), record, location, seq![]),
        },
        _ => conflict(select_expected(field), record, location, seq![]),
    }
}

/// The shape that a call expects of its callee: a function of the actual
/// argument types.
pub open spec fn apply_expected(arguments: Seq<Ty>) -> ExpectedTy {
    ExpectedTy::Specific(Ty::Function(arguments, Box::new(Ty::Any)))
}

/// The type of a call, given the callee's type and the argument types.
pub open spec fn spec_apply(location: Location, function: Ty, arguments: Seq<Ty>) -> Ty {
    match function {
        Ty::Function(formal, result) => if arguments == formal {
            *result
        } else {
            conflict(apply_expected(arguments), function, location, seq![])
        },
        _ => conflict(apply_expected(arguments), function, location, seq![]),
    }
}

/// The rule table: the type of an element given the types known so far, or
/// `None` while one that it needs is unknown.
pub open spec fn spec_infer(
    element: Element,
    types: Seq<Option<Ty>>,
    locations: Seq<Location>,
) -> Option<Ty> {
    match element {
        Element::Number(n) => Some(Ty::Number(spec_number_kind(n))),
        Element::String(_) => Some(Ty::String),
        Element::Symbol(s) => Some(Ty::Symbol(s.label)),
        Element::Tuple(t) => if all_known(types, t.fields@) {
            Some(Ty::Tuple(types_of(types, t.fields@)))
        } else {
            None
        },
        Element::Record(r) => if all_bindings_known(types, r.fields@) {
            Some(bindings_type(types, r.fields@))
        } else {
            None
        },
        Element::UnOp(u) => match type_of(types, u.operand) {
            Some(t) => Some(spec_un_op(u.operator, location_of(locations, u.operand), t)),
            None => None,
        },
        Element::BiOp(b) => match (type_of(types, b.lhs), type_of(types, b.rhs)) {
            (Some(l), Some(r)) => Some(
                spec_bi_op(
                    b.operator,
                    location_of(locations, b.lhs),
                    l,
                    location_of(locations, b.rhs),
                    r,
                ),
            ),
            _ => None,
        },
        Element::Variable(v) => type_of(types, v.initializer),
        Element::Select(s) => match type_of(types, s.record) {
            Some(t) => Some(spec_select(location_of(locations, s.record), t, s.field)),
            None => None,
        },
        Element::Apply(a) => match type_of(types, a.function) {
            Some(f) => if all_known(types, a.parameters@) {
                Some(
                    spec_apply(
                        location_of(locations, a.function),
                        f,
                        types_of(types, a.parameters@),
                    ),
                )
            } else {
                None
            },
            None => None,
        },
        Element::Parameter(p) => match p.signature {
            Some(s) => type_of(types, s),
            None => None,
        },
        Element::Capture(c) => type_of(types, c.captured),
        Element::Closure(c) => match c.signature {
            Some(s) => match type_of(types, s) {
                Some(result) => if all_known(types, c.parameters@) {
                    Some(Ty::Function(types_of(types, c.parameters@), Box::new(result)))
                } else {
                    None
                },
                None => None,
            },
            None => None,
        },
        Element::Module(m) => if all_bindings_known(types, m.variables@) {
            Some(bindings_type(types, m.variables@))
        } else {
            None
        },
    }
}

/// The views of a sequence of types.
pub open spec fn views_of(ts: Seq<Type>) -> Seq<Ty> {
    Seq::new(ts.len(), |i: int| ts[i]@)
}

/// The kind of a number literal.
pub fn number_type(number: &Number) -> (r: NumberKind)
    ensures
        r == spec_number_kind(*number),
{
    match number {
        Number::U8(_) => NumberKind::U8,
        Number::U16(_) => NumberKind::U16,
        Number::U32(_) => NumberKind::U32,
        Number::U64(_) => NumberKind::U64,
        Number::I8(_) => NumberKind::I8,
        Number::I16(_) => NumberKind::I16,
        Number::I32(_) => NumberKind::I32,
        Number::I64(_) => NumberKind::I64,
        Number::F32(_) => NumberKind::F32,
        Number::F64(_) => NumberKind::F64,
    }
}

/// The known type of an entity, if any.
pub fn lookup(types: &Vec<Option<Type>>, e: Entity) -> (r: Option<&Type>)
    ensures
        match r {
            Some(t) => type_of(table_view(types@), e) == Some(t@),
            None => type_of(table_view(types@), e) is None,
        },
{
    if e.0 < types.len() {
        match &types[e.0] {
            Some(t) => Some(t),
            None => None,
        }
    } else {
        None
    }
}

/// The source location of an entity.
pub fn location(locations: &Vec<Location>, e: Entity) -> (r: Location)
    ensures
        r == location_of(locations@, e),
{
    if e.0 < locations.len() {
        locations[e.0]
    } else {
        Location { start: 0, end: 0 }
    }
}

/// Copies of the known types of the given entities, or `None` if one of
/// them is unknown.
pub fn collect_types(types: &Vec<Option<Type>>, es: &Vec<Entity>) -> (r: Option<Vec<Type>>)
    ensures
        r is Some <==> all_known(table_view(types@), es@),
        r is Some ==> views_of(r.unwrap()@) == types_of(table_view(types@), es@),
{
    let mut collected: Vec<Type> = Vec::new();
    let mut i: usize = 0;
    while i < es.len()
        invariant
            0 <= i <= es.len(),
            collected.len() == i,
            forall|j: int| 0 <= j < i ==> type_of(table_view(types@), #[trigger] es@[j]) is Some,
            forall|j: int|
                0 <= j < i ==> Some(#[trigger] collected@[j]@) == type_of(table_view(types@), es@[j]),
        decreases es.len() - i,
    {
        match lookup(types, es[i]) {
            Some(t) => collected.push(t.duplicate()),
            None => {
                return None;
            },
        }
        i = i + 1;
    }
    assert(views_of(collected@) =~= types_of(table_view(types@), es@));
    Some(collected)
}

fn conflict_alone(expected: ExpectedType, actual: Type, main: Location) -> (r: Type)
    ensures
        r@ == conflict(expected@, actual@, main, seq![]),
{
    let r = Type::Conflict(
        Box::new(Conflict { expected, actual, main_location: main, aux: Vec::new() }),
    );
    assert(r@->Conflict_3 =~= Seq::<(Location, Ty)>::empty());
    r
}

fn conflict_beside(
    expected: ExpectedType,
    actual: Type,
    main: Location,
    other_location: Location,
    other: Type,
) -> (r: Type)
    ensures
        r@ == conflict(expected@, actual@, main, seq![(other_location, other@)]),
{
    let ghost other_view = other@;
    let aux = vec![AuxEntity { location: other_location, other_operand: other }];
    let r = Type::Conflict(Box::new(Conflict { expected, actual, main_location: main, aux }));
    assert(r@->Conflict_3 =~= seq![(other_location, other_view)]);
    r
}

/// Both operands must have the same type; the result is `result`.  A
/// mismatch is reported at the right operand, beside the left one.
pub fn if_eq_then(
    lhs_location: Location,
    lhs: &Type,
    rhs_location: Location,
    rhs: &Type,
    result: Type,
) -> (r: Type)
    requires
        lhs@.wf(),
        rhs@.wf(),
        result@.wf(),
    ensures
        r@ == spec_if_eq_then(lhs_location, lhs@, rhs_location, rhs@, result@),
        r@.wf(),
{
    proof {
        lemma_checks_wf(lhs_location, lhs@, rhs_location, rhs@, Ty::Any, result@);
    }
    if lhs.same(rhs) {
        result
    } else {
        conflict_beside(
            ExpectedType::Specific(lhs.duplicate()),
            rhs.duplicate(),
            rhs_location,
            lhs_location,
            lhs.duplicate(),
        )
    }
}

/// Both operands must be booleans; so is the result.
pub fn bool_op(lhs_location: Location, lhs: &Type, rhs_location: Location, rhs: &Type) -> (r: Type)
    requires
        lhs@.wf(),
        rhs@.wf(),
    ensures
        r@ == spec_bool_op(lhs_location, lhs@, rhs_location, rhs@),
        r@.wf(),
{
    proof {
        lemma_checks_wf(lhs_location, lhs@, rhs_location, rhs@, Ty::Any, Ty::Any);
    }
    proof {
        lemma_view_variant(lhs);
        lemma_view_variant(rhs);
        reveal_with_fuel(Type::view, 2);
        reveal_with_fuel(ExpectedType::view, 2);
    }
    match lhs {
        Type::Boolean => match rhs {
            Type::Boolean => Type::Boolean,
            _ => conflict_beside(
                ExpectedType::Specific(Type::Boolean),
                rhs.duplicate(),
                rhs_location,
                lhs_location,
                lhs.duplicate(),
            ),
        },
        _ => conflict_beside(
            ExpectedType::Specific(Type::Boolean),
            lhs.duplicate(),
            lhs_location,
            rhs_location,
            rhs.duplicate(),
        ),
    }
}

/// A union extended by a symbol, or the logical or of two booleans.
pub fn or_op(lhs_location: Location, lhs: &Type, rhs_location: Location, rhs: &Type) -> (r: Type)
    requires
        lhs@.wf(),
        rhs@.wf(),
    ensures
        r@ == spec_or_op(lhs_location, lhs@, rhs_location, rhs@),
        lhs is Union && rhs is Symbol && lhs->Union_0@.contains(rhs->Symbol_0) ==> r is Union
            && r->Union_0.alternatives@ == lhs->Union_0.alternatives@,
        lhs is Union && rhs is Symbol && !lhs->Union_0@.contains(rhs->Symbol_0) ==> r is Union
            && r->Union_0.alternatives@ == lhs->Union_0.alternatives@.push(rhs->Symbol_0),
        r@.wf(),
{
    proof {
        lemma_checks_wf(lhs_location, lhs@, rhs_location, rhs@, Ty::Any, Ty::Any);
    }
    proof {
        lemma_view_variant(lhs);
        lemma_view_variant(rhs);
        reveal_with_fuel(Type::view, 2);
        reveal_with_fuel(ExpectedType::view, 2);
    }
    match lhs {
        Type::Union(u) => match rhs {
            Type::Symbol(s) => Type::Union(u.with(*s)),
            _ => conflict_beside(
                ExpectedType::Symbol,
                rhs.duplicate(),
                rhs_location,
                lhs_location,
                lhs.duplicate(),
            ),
        },
        Type::Boolean => bool_op(lhs_location, lhs, rhs_location, rhs),
        _ => {
            proof {
                reveal_with_fuel(Type::view, 3);
                reveal_with_fuel(ExpectedType::view, 3);
            }
            let mut alternatives: Vec<ExpectedType> = Vec::new();
            alternatives.push(ExpectedType::Specific(Type::Boolean));
            alternatives.push(ExpectedType::Union);
            let expected = ExpectedType::AnyOf(alternatives);
            assert(expected@->AnyOf_0[0] == ExpectedTy::Specific(Ty::Boolean));
            assert(expected@->AnyOf_0[1] == ExpectedTy::Union);
            assert(expected@->AnyOf_0 =~= seq![ExpectedTy::Specific(Ty::Boolean), ExpectedTy::Union]);
            conflict_beside(expected, lhs.duplicate(), lhs_location, rhs_location, rhs.duplicate())
        },
    }
}

/// The operand must be of an integral type; the result is `result`.
pub fn if_integral_then(location: Location, t: &Type, result: Type) -> (r: Type)
    requires
        t@.wf(),
        result@.wf(),
    ensures
        r@ == spec_if_integral_then(location, t@, result@),
        r@.wf(),
{
    proof {
        lemma_checks_wf(location, t@, location, t@, Ty::Any, result@);
    }
    match t.scalar_class() {
        ScalarClass::Integral(_) => result,
        _ => conflict_alone(
            ExpectedType::ScalarClass(ScalarClass::Integral(IntegralClass::Any)),
            t.duplicate(),
            location,
        ),
    }
}

/// The left operand must be integral and the right one exactly `expected`.
pub fn if_integral_and_eq_then(
    lhs_location: Location,
    lhs: &Type,
    rhs_location: Location,
    rhs: &Type,
    expected: &Type,
    result: Type,
) -> (r: Type)
    requires
        lhs@.wf(),
        rhs@.wf(),
        expected@.wf(),
        result@.wf(),
    ensures
        r@ == spec_if_integral_and_eq_then(
            lhs_location,
            lhs@,
            rhs_location,
            rhs@,
            expected@,
            result@,
        ),
        r@.wf(),
{
    proof {
        lemma_checks_wf(lhs_location, lhs@, rhs_location, rhs@, expected@, result@);
    }
    match lhs.scalar_class() {
        ScalarClass::Integral(_) => if rhs.same(expected) {
            result
        } else {
            conflict_beside(
                ExpectedType::Specific(expected.duplicate()),
                rhs.duplicate(),
                rhs_location,
                lhs_location,
                lhs.duplicate(),
            )
        },
        _ => conflict_beside(
            ExpectedType::ScalarClass(ScalarClass::Integral(IntegralClass::Any)),
            lhs.duplicate(),
            lhs_location,
            rhs_location,
            rhs.duplicate(),
        ),
    }
}

/// The operand must be of a fractional type; the result is `result`.
pub fn if_fractional_then(location: Location, t: &Type, result: Type) -> (r: Type)
    requires
        t@.wf(),
        result@.wf(),
    ensures
        r@ == spec_if_fractional_then(location, t@, result@),
        r@.wf(),
{
    proof {
        lemma_checks_wf(location, t@, location, t@, Ty::Any, result@);
    }
    match t.scalar_class() {
        ScalarClass::Fractional => result,
        _ => conflict_alone(
            ExpectedType::ScalarClass(ScalarClass::Fractional),
            t.duplicate(),
            location,
        ),
    }
}

/// The type of an unary operator application, given its operand's type.
pub fn un_op_type(operator: UnOperator, operand_location: Location, operand: &Type) -> (r: Type)
    requires
        operand@.wf(),
    ensures
        r@ == spec_un_op(operator, operand_location, operand@),
        r@.wf(),
{
    proof {
        lemma_un_op_wf(operator, operand_location, operand@);
    }
    proof {
        lemma_view_variant(operand);
        reveal_with_fuel(Type::view, 2);
        reveal_with_fuel(ExpectedType::view, 2);
    }
    match operator {
        UnOperator::Not => match operand {
            Type::Boolean => Type::Boolean,
            _ => conflict_alone(
                ExpectedType::Specific(Type::Boolean),
                operand.duplicate(),
                operand_location,
            ),
        },
        UnOperator::BNot => if_integral_then(operand_location, operand, operand.duplicate()),
        UnOperator::Cl0
        | UnOperator::Cl1
        | UnOperator::Cls
        | UnOperator::Ct0
        | UnOperator::Ct1
        | UnOperator::C0
        | UnOperator::C1 => if_integral_then(
            operand_location,
            operand,
            Type::Number(NumberKind::U32),
        ),
        UnOperator::Sqrt => if_fractional_then(operand_location, operand, operand.duplicate()),
    }
}

/// The type of a binary operator application, given its operands' types.
pub fn bi_op_type(
    operator: BiOperator,
    lhs_location: Location,
    lhs: &Type,
    rhs_location: Location,
    rhs: &Type,
) -> (r: Type)
    requires
        operator != BiOperator::Cmp,
        lhs@.wf(),
        rhs@.wf(),
    ensures
        r@.wf(),
        r@ == spec_bi_op(operator, lhs_location, lhs@, rhs_location, rhs@),
        is_comparison(operator) && lhs@ == rhs@ ==> r@ == Ty::Boolean,
        is_comparison(operator) && lhs@ != rhs@ ==> r@ == conflict(
            ExpectedTy::Specific(lhs@),
            rhs@,
            rhs_location,
            seq![(lhs_location, lhs@)],
        ),
{
    proof {
        lemma_bi_op_wf(operator, lhs_location, lhs@, rhs_location, rhs@);
    }
    match operator {
        BiOperator::Eq
        | BiOperator::Ne
        | BiOperator::Lt
        | BiOperator::Ge
        | BiOperator::Gt
        | BiOperator::Le => if_eq_then(lhs_location, lhs, rhs_location, rhs, Type::Boolean),
        BiOperator::Add
        | BiOperator::Sub
        | BiOperator::Mul
        | BiOperator::Div
        | BiOperator::Rem
        | BiOperator::BAnd
        | BiOperator::BOr
        | BiOperator::BXor
        | BiOperator::BAndNot
        | BiOperator::BOrNot
        | BiOperator::BXorNot => if_eq_then(
            lhs_location,
            lhs,
            rhs_location,
            rhs,
            lhs.duplicate(),
        ),
        BiOperator::Or => or_op(lhs_location, lhs, rhs_location, rhs),
        BiOperator::And
        | BiOperator::Xor
        | BiOperator::AndNot
        | BiOperator::OrNot
        | BiOperator::XorNot => bool_op(lhs_location, lhs, rhs_location, rhs),
        BiOperator::RotL | BiOperator::RotR | BiOperator::ShL | BiOperator::ShR => {
            let expected = Type::Number(NumberKind::U32);
            if_integral_and_eq_then(
                lhs_location,
                lhs,
                rhs_location,
                rhs,
                &expected,
                lhs.duplicate(),
            )
        },
        // Excluded by the precondition: `Cmp` has no typing rule.
        BiOperator::Cmp => Type::Any,
    }
}

/// The index of the first field called `name`, or `None` if there is none.
pub fn find_field(fields: &Vec<(Ident, Type)>, name: Ident) -> (r: Option<usize>)
    ensures
        match r {
            Some(i) => i < fields.len() && record_field(Type::Record(*fields)@->Record_0, name)
                == Some(fields@[i as int].1@),
            None => record_field(Type::Record(*fields)@->Record_0, name) is None,
        },
{
    let ghost fv = Type::Record(*fields)@->Record_0;
    assert(fv.subrange(0, fv.len() as int) =~= fv);
    let mut i: usize = 0;
    while i < fields.len()
        invariant
            0 <= i <= fields.len(),
            fv == Type::Record(*fields)@->Record_0,
            fv.len() == fields.len(),
            record_field(fv, name) == record_field(fv.subrange(i as int, fv.len() as int), name),
        decreases fields.len() - i,
    {
        let ghost rest = fv.subrange(i as int, fv.len() as int);
        assert(rest[0] == fv[i as int]);
        if fields[i].0 == name {
            return Some(i);
        }
        assert(rest.drop_first() =~= fv.subrange(i + 1, fv.len() as int));
        i = i + 1;
    }
    None
}

/// The type of a field projection, given the projected entity's type.
pub fn select_type(record_location: Location, record: &Type, field: Ident) -> (r: Type)
    requires
        record@.wf(),
    ensures
        r@ == spec_select(record_location, record@, field),
        record@ is Record && record_field(record@->Record_0, field) is Some ==> r@ == record_field(
            record@->Record_0,
            field,
        ).unwrap(),
        !(record@ is Record && record_field(record@->Record_0, field) is Some) ==> r@ == conflict(
            select_expected(field),
            record@,
            record_location,
            seq![],
        ),
        r@.wf(),
{
    proof {
        lemma_select_wf(record_location, record@, field);
    }
    proof {
        reveal_with_fuel(Type::view, 3);
        reveal_with_fuel(ExpectedType::view, 3);
    }
    let mut expected_fields: Vec<(Ident, Type)> = Vec::new();
    expected_fields.push((field, Type::Any));
    let expected = Type::Record(expected_fields);
    assert(expected@->Record_0[0] == (field, Ty::Any));
    assert(expected@->Record_0 =~= seq![(field, Ty::Any)]);
    match record {
        Type::Record(fields) => match find_field(fields, field) {
            Some(i) => fields[i].1.duplicate(),
            None => conflict_alone(
                ExpectedType::Specific(expected),
                record.duplicate(),
                record_location,
            ),
        },
        _ => conflict_alone(ExpectedType::Specific(expected), record.duplicate(), record_location),
    }
}

/// The type of a call, given the callee's type and the argument types.
pub fn apply_type(function_location: Location, function: &Type, arguments: Vec<Type>) -> (r: Type)
    requires
        function@.wf(),
        forall|i: int| 0 <= i < arguments.len() ==> #[trigger] arguments[i]@.wf(),
    ensures
        r@ == spec_apply(function_location, function@, views_of(arguments@)),
        function@ is Function && views_of(arguments@) == function@->Function_0 ==> r@
            == *function@->Function_1,
        !(function@ is Function && views_of(arguments@) == function@->Function_0) ==> r@
            == conflict(apply_expected(views_of(arguments@)), function@, function_location, seq![]),
        r@.wf(),
{
    proof {
        assert forall|i: int| 0 <= i < views_of(arguments@).len() implies #[trigger] views_of(
            arguments@,
        )[i].wf() by {
            assert(arguments[i]@.wf());
        }
        lemma_apply_wf(function_location, function@, views_of(arguments@));
    }
    proof {
        reveal_with_fuel(Type::view, 3);
        reveal_with_fuel(ExpectedType::view, 3);
    }
    let ghost args = views_of(arguments@);
    let matched = match function {
        Type::Function(formal, result) => {
            assert(function@->Function_0 =~= views_of(formal@));
            let same = same_types(&arguments, formal);
            if same {
                assert(function@->Function_0 =~= args);
                Some(result.duplicate())
            } else {
                assert(function@->Function_0 != args);
                None
            }
        },
        _ => None,
    };
    match matched {
        Some(t) => t,
        None => {
            let expected = Type::Function(arguments, Box::new(Type::Any));
            assert(expected@->Function_0 =~= args);
            conflict_alone(ExpectedType::Specific(expected), function.duplicate(), function_location)
        },
    }
}

/// Whether two lists of types are equal element by element.
pub fn same_types(a: &Vec<Type>, b: &Vec<Type>) -> (r: bool)
    ensures
        r == (views_of(a@) == views_of(b@)),
{
    if a.len() != b.len() {
        assert(views_of(a@).len() != views_of(b@).len());
        return false;
    }
    let mut i: usize = 0;
    while i < a.len()
        invariant
            a.len() == b.len(),
            0 <= i <= a.len(),
            forall|j: int| 0 <= j < i ==> a@[j]@ == b@[j]@,
        decreases a.len() - i,
    {
        if !a[i].same(&b[i]) {
            assert(views_of(a@)[i as int] != views_of(b@)[i as int]);
            return false;
        }
        i = i + 1;
    }
    assert(views_of(a@) =~= views_of(b@));
    true
}

/// The tuple type of the given fields, once all their types are known.
pub fn tuple_type(types: &Vec<Option<Type>>, fields: &Vec<Entity>) -> (r: Option<Type>)
    ensures
        option_view(r) == (if all_known(table_view(types@), fields@) {
            Some(Ty::Tuple(types_of(table_view(types@), fields@)))
        } else {
            None
        }),
{
    match collect_types(types, fields) {
        Some(ts) => {
            let ghost tsv = views_of(ts@);
            let r = Type::Tuple(ts);
            assert(r@->Tuple_0 =~= tsv);
            Some(r)
        },
        None => None,
    }
}

/// The record type of the given named fields, once all their types are
/// known.
pub fn record_type(types: &Vec<Option<Type>>, fields: &Vec<(Ident, Entity)>) -> (r: Option<Type>)
    ensures
        option_view(r) == (if all_bindings_known(table_view(types@), fields@) {
            Some(bindings_type(table_view(types@), fields@))
        } else {
            None
        }),
{
    let ghost tv = table_view(types@);
    let mut collected: Vec<(Ident, Type)> = Vec::new();
    let mut i: usize = 0;
    while i < fields.len()
        invariant
            tv == table_view(types@),
            0 <= i <= fields.len(),
            collected.len() == i,
            forall|j: int| 0 <= j < i ==> type_of(tv, #[trigger] fields@[j].1) is Some,
            forall|j: int|
                0 <= j < i ==> (#[trigger] collected@[j]).0 == fields@[j].0 && Some(collected@[j].1@)
                    == type_of(tv, fields@[j].1),
        decreases fields.len() - i,
    {
        match lookup(types, fields[i].1) {
            Some(t) => collected.push((fields[i].0, t.duplicate())),
            None => {
                return None;
            },
        }
        i = i + 1;
    }
    let r = Type::Record(collected);
    assert(r@->Record_0 =~= bindings_type(tv, fields@)->Record_0);
    Some(r)
}

/// The type of a variable: the type of its initializer.
pub fn variable_type(types: &Vec<Option<Type>>, initializer: Entity) -> (r: Option<Type>)
    ensures
        option_view(r) == type_of(table_view(types@), initializer),
{
    match lookup(types, initializer) {
        Some(t) => Some(t.duplicate()),
        None => None,
    }
}

/// The type of a parameter: the type of its signature entity.  A parameter
/// without a signature gets no type.
pub fn parameter_type(types: &Vec<Option<Type>>, signature: Option<Entity>) -> (r: Option<Type>)
    ensures
        option_view(r) == match signature {
            Some(s) => type_of(table_view(types@), s),
            None => None,
        },
{
    match signature {
        Some(s) => variable_type(types, s),
        None => None,
    }
}

/// The type of a capture: the type of the captured entity.
pub fn capture_type(types: &Vec<Option<Type>>, captured: Entity) -> (r: Option<Type>)
    ensures
        option_view(r) == type_of(table_view(types@), captured),
{
    variable_type(types, captured)
}

/// The type of a closure: a function from its parameters' types to the type
/// of its signature entity.  A closure without a signature gets no type.
pub fn closure_type(
    types: &Vec<Option<Type>>,
    parameters: &Vec<Entity>,
    signature: Option<Entity>,
) -> (r: Option<Type>)
    ensures
        option_view(r) == match signature {
            Some(s) => match type_of(table_view(types@), s) {
                Some(result) => if all_known(table_view(types@), parameters@) {
                    Some(Ty::Function(types_of(table_view(types@), parameters@), Box::new(result)))
                } else {
                    None
                },
                None => None,
            },
            None => None,
        },
{
    let s = match signature {
        Some(s) => s,
        None => {
            return None;
        },
    };
    let result = match lookup(types, s) {
        Some(t) => t.duplicate(),
        None => {
            return None;
        },
    };
    match collect_types(types, parameters) {
        Some(ps) => {
            let ghost psv = views_of(ps@);
            let r = Type::Function(ps, Box::new(result));
            assert(r@->Function_0 =~= psv);
            Some(r)
        },
        None => None,
    }
}

/// The type of a module: a record of its members' types.
pub fn module_type(types: &Vec<Option<Type>>, variables: &Vec<(Ident, Entity)>) -> (r: Option<Type>)
    ensures
        option_view(r) == (if all_bindings_known(table_view(types@), variables@) {
            Some(bindings_type(table_view(types@), variables@))
        } else {
            None
        }),
{
    record_type(types, variables)
}

/// Applies the rule of the element's kind to the types known so far.
pub fn infer_type(element: &Element, types: &Vec<Option<Type>>, locations: &Vec<Location>) -> (r:
    Option<Type>)
    requires
        !element.is_unsupported(),
        element.wf(),
        table_wf(table_view(types@)),
    ensures
        option_view(r) == spec_infer(*element, table_view(types@), locations@),
        r is Some ==> r.unwrap()@.wf(),
{
    proof {
        lemma_infer_wf(*element, table_view(types@), locations@);
    }
    match element {
        Element::Number(n) => Some(Type::Number(number_type(n))),
        Element::String(_) => Some(Type::String),
        Element::Symbol(s) => Some(Type::Symbol(s.label)),
        Element::Tuple(t) => tuple_type(types, &t.fields),
        Element::Record(r) => record_type(types, &r.fields),
        Element::UnOp(u) => match lookup(types, u.operand) {
            Some(t) => {
                proof {
                    lemma_type_of_wf(table_view(types@), u.operand);
                }
                Some(un_op_type(u.operator, location(locations, u.operand), t))
            },
            None => None,
        },
        Element::BiOp(b) => match (lookup(types, b.lhs), lookup(types, b.rhs)) {
            (Some(l), Some(r)) => {
                proof {
                    lemma_type_of_wf(table_view(types@), b.lhs);
                    lemma_type_of_wf(table_view(types@), b.rhs);
                }
                Some(
                    bi_op_type(b.operator, location(locations, b.lhs), l, location(locations, b.rhs), r),
                )
            },
            _ => None,
        },
        Element::Variable(v) => variable_type(types, v.initializer),
        Element::Select(s) => match lookup(types, s.record) {
            Some(t) => {
                proof {
                    lemma_type_of_wf(table_view(types@), s.record);
                }
                Some(select_type(location(locations, s.record), t, s.field))
            },
            None => None,
        },
        Element::Apply(a) => match lookup(types, a.function) {
            Some(f) => match collect_types(types, &a.parameters) {
                Some(arguments) => {
                    proof {
                        lemma_type_of_wf(table_view(types@), a.function);
                        lemma_types_of_wf(table_view(types@), a.parameters@);
                        assert forall|i: int| 0 <= i < arguments.len() implies #[trigger] arguments[i]@.wf() by {
                            assert(views_of(arguments@)[i] == arguments[i]@);
                        }
                    }
                    Some(apply_type(location(locations, a.function), f, arguments))
                },
                None => None,
            },
            None => None,
        },
        Element::Parameter(p) => parameter_type(types, p.signature),
        Element::Capture(c) => capture_type(types, c.captured),
        Element::Closure(c) => closure_type(types, &c.parameters, c.signature),
        Element::Module(m) => module_type(types, &m.variables),
    }
}

proof fn lemma_type_of_extends(a: Seq<Option<Ty>>, b: Seq<Option<Ty>>, e: Entity)
    requires
        extends(a, b),
        type_of(a, e) is Some,
    ensures
        type_of(b, e) == type_of(a, e),
{
}

proof fn lemma_all_known_extends(a: Seq<Option<Ty>>, b: Seq<Option<Ty>>, es: Seq<Entity>)
    requires
        extends(a, b),
        all_known(a, es),
    ensures
        all_known(b, es),
        types_of(b, es) == types_of(a, es),
{
    assert forall|i: int| 0 <= i < es.len() implies type_of(b, #[trigger] es[i]) == type_of(a, es[i]) by {
        lemma_type_of_extends(a, b, es[i]);
    }
    assert(types_of(b, es) =~= types_of(a, es));
}

proof fn lemma_bindings_known_extends(
    a: Seq<Option<Ty>>,
    b: Seq<Option<Ty>>,
    bindings: Seq<(crate::ir::Ident, Entity)>,
)
    requires
        extends(a, b),
        all_bindings_known(a, bindings),
    ensures
        all_bindings_known(b, bindings),
        bindings_type(b, bindings) == bindings_type(a, bindings),
{
    assert forall|i: int| 0 <= i < bindings.len() implies type_of(b, #[trigger] bindings[i].1)
        == type_of(a, bindings[i].1) by {
        lemma_type_of_extends(a, b, bindings[i].1);
    }
    assert(bindings_type(b, bindings)->Record_0 =~= bindings_type(a, bindings)->Record_0);
}

/// Once a rule gives a type, knowing more types does not change it.
pub proof fn lemma_infer_monotone(
    element: Element,
    a: Seq<Option<Ty>>,
    b: Seq<Option<Ty>>,
    locations: Seq<Location>,
)
    requires
        extends(a, b),
        spec_infer(element, a, locations) is Some,
    ensures
        spec_infer(element, b, locations) == spec_infer(element, a, locations),
{
    match element {
        Element::Tuple(t) => lemma_all_known_extends(a, b, t.fields@),
        Element::Record(r) => lemma_bindings_known_extends(a, b, r.fields@),
        Element::UnOp(u) => lemma_type_of_extends(a, b, u.operand),
        Element::BiOp(o) => {
            lemma_type_of_extends(a, b, o.lhs);
            lemma_type_of_extends(a, b, o.rhs);
        },
        Element::Variable(v) => lemma_type_of_extends(a, b, v.initializer),
        Element::Select(s) => lemma_type_of_extends(a, b, s.record),
        Element::Apply(f) => {
            lemma_type_of_extends(a, b, f.function);
            lemma_all_known_extends(a, b, f.parameters@);
        },
        Element::Parameter(p) => {
            lemma_type_of_extends(a, b, p.signature.unwrap());
        },
        Element::Capture(c) => lemma_type_of_extends(a, b, c.captured),
        Element::Closure(c) => {
            lemma_type_of_extends(a, b, c.signature.unwrap());
            lemma_all_known_extends(a, b, c.parameters@);
        },
        Element::Module(m) => lemma_bindings_known_extends(a, b, m.variables@),
        _ => {},
    }
}


/// Every known type in the table is well formed.
pub open spec fn table_wf(types: Seq<Option<Ty>>) -> bool {
    forall|i: int| 0 <= i < types.len() && (#[trigger] types[i]) is Some ==> types[i].unwrap().wf()
}

proof fn lemma_conflict_wf(expected: ExpectedTy, actual: Ty, main: Location, aux: Seq<(Location, Ty)>)
    requires
        expected.wf(),
        actual.wf(),
        forall|i: int| 0 <= i < aux.len() ==> #[trigger] aux[i].1.wf(),
    ensures
        conflict(expected, actual, main, aux).wf(),
{
    lemma_aux_wf(aux, aux.len());
}

proof fn lemma_beside_wf(expected: ExpectedTy, actual: Ty, main: Location, other_location: Location, other: Ty)
    requires
        expected.wf(),
        actual.wf(),
        other.wf(),
    ensures
        conflict(expected, actual, main, seq![(other_location, other)]).wf(),
        conflict(expected, actual, main, seq![]).wf(),
{
    let aux = seq![(other_location, other)];
    assert forall|i: int| 0 <= i < aux.len() implies #[trigger] aux[i].1.wf() by {
        assert(aux[i] == (other_location, other));
    }
    lemma_conflict_wf(expected, actual, main, aux);
    lemma_conflict_wf(expected, actual, main, seq![]);
}

proof fn lemma_shapes_wf(field: Ident)
    ensures
        Ty::Boolean.wf(),
        Ty::Any.wf(),
        Ty::Number(NumberKind::U32).wf(),
        ExpectedTy::Specific(Ty::Boolean).wf(),
        ExpectedTy::Symbol.wf(),
        ExpectedTy::Union.wf(),
        ExpectedTy::ScalarClass(ScalarClass::Integral(IntegralClass::Any)).wf(),
        ExpectedTy::ScalarClass(ScalarClass::Fractional).wf(),
        ExpectedTy::AnyOf(seq![ExpectedTy::Specific(Ty::Boolean), ExpectedTy::Union]).wf(),
        select_expected(field).wf(),
{
    assert(Ty::Boolean.wf());
    assert(Ty::Any.wf());
    assert(ExpectedTy::Specific(Ty::Boolean).wf());
    assert(ExpectedTy::Union.wf());
    let alternatives = seq![ExpectedTy::Specific(Ty::Boolean), ExpectedTy::Union];
    assert forall|i: int| 0 <= i < alternatives.len() implies #[trigger] alternatives[i].wf() by {
        if i == 0 {
            assert(alternatives[i] == ExpectedTy::Specific(Ty::Boolean));
        } else {
            assert(alternatives[i] == ExpectedTy::Union);
        }
    }
    lemma_expecteds_wf(alternatives, 2);
    let fields = seq![(field, Ty::Any)];
    assert(fields[0].1 == Ty::Any);
    lemma_fields_wf(fields, 1);
    assert(Ty::Record(fields).wf());
    assert(ExpectedTy::Specific(Ty::Record(fields)).wf());
}

/// The checking helpers give well-formed types from well-formed ones.
pub proof fn lemma_checks_wf(
    lhs_location: Location,
    lhs: Ty,
    rhs_location: Location,
    rhs: Ty,
    expected: Ty,
    result: Ty,
)
    requires
        lhs.wf(),
        rhs.wf(),
        expected.wf(),
        result.wf(),
    ensures
        spec_if_eq_then(lhs_location, lhs, rhs_location, rhs, result).wf(),
        spec_if_integral_then(lhs_location, lhs, result).wf(),
        spec_if_fractional_then(lhs_location, lhs, result).wf(),
        spec_if_integral_and_eq_then(lhs_location, lhs, rhs_location, rhs, expected, result).wf(),
        spec_bool_op(lhs_location, lhs, rhs_location, rhs).wf(),
        spec_or_op(lhs_location, lhs, rhs_location, rhs).wf(),
{
    lemma_shapes_wf(Ident(0));
    lemma_bi_op_wf(BiOperator::Or, lhs_location, lhs, rhs_location, rhs);
    assert(ExpectedTy::Specific(lhs).wf());
    assert(ExpectedTy::Specific(expected).wf());
    lemma_beside_wf(ExpectedTy::Specific(lhs), rhs, rhs_location, lhs_location, lhs);
    lemma_beside_wf(ExpectedTy::Specific(expected), rhs, rhs_location, lhs_location, lhs);
    lemma_beside_wf(
        ExpectedTy::ScalarClass(ScalarClass::Integral(IntegralClass::Any)),
        lhs,
        lhs_location,
        rhs_location,
        rhs,
    );
    lemma_beside_wf(ExpectedTy::ScalarClass(ScalarClass::Fractional), lhs, lhs_location, lhs_location, lhs);
}

/// The binary-operator rules give well-formed types from well-formed ones.
pub proof fn lemma_bi_op_wf(operator: BiOperator, lhs_location: Location, lhs: Ty, rhs_location: Location, rhs: Ty)
    requires
        lhs.wf(),
        rhs.wf(),
    ensures
        spec_bi_op(operator, lhs_location, lhs, rhs_location, rhs).wf(),
        spec_or_op(lhs_location, lhs, rhs_location, rhs).wf(),
        spec_bool_op(lhs_location, lhs, rhs_location, rhs).wf(),
{
    lemma_shapes_wf(Ident(0));
    assert(ExpectedTy::Specific(lhs).wf());
    assert(ExpectedTy::Specific(Ty::Number(NumberKind::U32)).wf());
    lemma_beside_wf(ExpectedTy::Specific(lhs), rhs, rhs_location, lhs_location, lhs);
    lemma_beside_wf(ExpectedTy::Specific(Ty::Boolean), rhs, rhs_location, lhs_location, lhs);
    lemma_beside_wf(ExpectedTy::Specific(Ty::Boolean), lhs, lhs_location, rhs_location, rhs);
    lemma_beside_wf(ExpectedTy::Symbol, rhs, rhs_location, lhs_location, lhs);
    lemma_beside_wf(
        ExpectedTy::AnyOf(seq![ExpectedTy::Specific(Ty::Boolean), ExpectedTy::Union]),
        lhs,
        lhs_location,
        rhs_location,
        rhs,
    );
    lemma_beside_wf(
        ExpectedTy::Specific(Ty::Number(NumberKind::U32)),
        rhs,
        rhs_location,
        lhs_location,
        lhs,
    );
    lemma_beside_wf(
        ExpectedTy::ScalarClass(ScalarClass::Integral(IntegralClass::Any)),
        lhs,
        lhs_location,
        rhs_location,
        rhs,
    );
    match lhs {
        Ty::Union(alternatives) => match rhs {
            Ty::Symbol(s) => {
                assert(Ty::Union(alternatives.insert(s)).wf());
            },
            _ => {},
        },
        _ => {},
    }
}

/// The unary-operator rules give well-formed types from well-formed ones.
pub proof fn lemma_un_op_wf(operator: UnOperator, location: Location, t: Ty)
    requires
        t.wf(),
    ensures
        spec_un_op(operator, location, t).wf(),
{
    lemma_shapes_wf(Ident(0));
    lemma_beside_wf(ExpectedTy::Specific(Ty::Boolean), t, location, location, t);
    lemma_beside_wf(
        ExpectedTy::ScalarClass(ScalarClass::Integral(IntegralClass::Any)),
        t,
        location,
        location,
        t,
    );
    lemma_beside_wf(ExpectedTy::ScalarClass(ScalarClass::Fractional), t, location, location, t);
}

proof fn lemma_record_field_wf(fields: Seq<(Ident, Ty)>, name: Ident)
    requires
        forall|i: int| 0 <= i < fields.len() ==> #[trigger] fields[i].1.wf(),
    ensures
        record_field(fields, name) is Some ==> record_field(fields, name).unwrap().wf(),
    decreases fields.len(),
{
    if fields.len() > 0 && fields[0].0 != name {
        let rest = fields.drop_first();
        assert forall|i: int| 0 <= i < rest.len() implies #[trigger] rest[i].1.wf() by {
            assert(rest[i] == fields[i + 1]);
        }
        lemma_record_field_wf(rest, name);
    }
}

/// Field projection gives a well-formed type from a well-formed one.
pub proof fn lemma_select_wf(location: Location, record: Ty, field: Ident)
    requires
        record.wf(),
    ensures
        spec_select(location, record, field).wf(),
{
    lemma_shapes_wf(field);
    lemma_beside_wf(select_expected(field), record, location, location, record);
    match record {
        Ty::Record(fields) => {
            lemma_fields_wf(fields, fields.len());
            lemma_record_field_wf(fields, field);
        },
        _ => {},
    }
}

/// A call gives a well-formed type from well-formed ones.
pub proof fn lemma_apply_wf(location: Location, function: Ty, arguments: Seq<Ty>)
    requires
        function.wf(),
        forall|i: int| 0 <= i < arguments.len() ==> #[trigger] arguments[i].wf(),
    ensures
        spec_apply(location, function, arguments).wf(),
{
    lemma_shapes_wf(Ident(0));
    let shape = Ty::Function(arguments, Box::new(Ty::Any));
    lemma_tys_wf(arguments, arguments.len());
    assert(shape.wf());
    assert(apply_expected(arguments).wf());
    lemma_beside_wf(apply_expected(arguments), function, location, location, function);
}

proof fn lemma_type_of_wf(types: Seq<Option<Ty>>, e: Entity)
    requires
        table_wf(types),
        type_of(types, e) is Some,
    ensures
        type_of(types, e).unwrap().wf(),
{
    assert(types[e.0 as int] is Some);
}

proof fn lemma_types_of_wf(types: Seq<Option<Ty>>, es: Seq<Entity>)
    requires
        table_wf(types),
        all_known(types, es),
    ensures
        forall|i: int| 0 <= i < es.len() ==> #[trigger] types_of(types, es)[i].wf(),
{
    assert forall|i: int| 0 <= i < es.len() implies #[trigger] types_of(types, es)[i].wf() by {
        assert(type_of(types, es[i]) is Some);
        lemma_type_of_wf(types, es[i]);
    }
}

proof fn lemma_bindings_type_wf(types: Seq<Option<Ty>>, bindings: Seq<(Ident, Entity)>)
    requires
        table_wf(types),
        all_bindings_known(types, bindings),
        names_increasing(bindings),
    ensures
        bindings_type(types, bindings).wf(),
{
    let fields = bindings_type(types, bindings)->Record_0;
    assert forall|i: int| 0 <= i < fields.len() implies #[trigger] fields[i].1.wf() by {
        assert(type_of(types, bindings[i].1) is Some);
        lemma_type_of_wf(types, bindings[i].1);
    }
    assert(fields_increasing(fields));
    lemma_fields_wf(fields, fields.len());
}

/// From well-formed known types, the rule of a well-formed element gives a
/// well-formed type.
pub proof fn lemma_infer_wf(element: Element, types: Seq<Option<Ty>>, locations: Seq<Location>)
    requires
        table_wf(types),
        element.wf(),
    ensures
        spec_infer(element, types, locations) is Some ==> spec_infer(
            element,
            types,
            locations,
        ).unwrap().wf(),
{
    if spec_infer(element, types, locations) is Some {
        match element {
            Element::Number(_) | Element::String(_) | Element::Symbol(_) => {},
            Element::Tuple(t) => {
                lemma_types_of_wf(types, t.fields@);
                lemma_tys_wf(types_of(types, t.fields@), t.fields@.len());
            },
            Element::Record(r) => lemma_bindings_type_wf(types, r.fields@),
            Element::UnOp(u) => {
                lemma_type_of_wf(types, u.operand);
                lemma_un_op_wf(u.operator, location_of(locations, u.operand), type_of(types, u.operand).unwrap());
            },
            Element::BiOp(b) => {
                lemma_type_of_wf(types, b.lhs);
                lemma_type_of_wf(types, b.rhs);
                lemma_bi_op_wf(
                    b.operator,
                    location_of(locations, b.lhs),
                    type_of(types, b.lhs).unwrap(),
                    location_of(locations, b.rhs),
                    type_of(types, b.rhs).unwrap(),
                );
            },
            Element::Variable(v) => lemma_type_of_wf(types, v.initializer),
            Element::Select(x) => {
                lemma_type_of_wf(types, x.record);
                lemma_select_wf(location_of(locations, x.record), type_of(types, x.record).unwrap(), x.field);
            },
            Element::Apply(a) => {
                lemma_type_of_wf(types, a.function);
                lemma_types_of_wf(types, a.parameters@);
                lemma_apply_wf(
                    location_of(locations, a.function),
                    type_of(types, a.function).unwrap(),
                    types_of(types, a.parameters@),
                );
            },
            Element::Parameter(p) => lemma_type_of_wf(types, p.signature.unwrap()),
            Element::Capture(c) => lemma_type_of_wf(types, c.captured),
            Element::Closure(c) => {
                lemma_type_of_wf(types, c.signature.unwrap());
                lemma_types_of_wf(types, c.parameters@);
                lemma_tys_wf(types_of(types, c.parameters@), c.parameters@.len());
                let r = spec_infer(element, types, locations).unwrap();
                assert(r.wf());
            },
            Element::Module(m) => lemma_bindings_type_wf(types, m.variables@),
        }
    }
}

} // verus!
