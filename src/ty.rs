//! The type algebra: structural types, scalar classes and conflicts.
use vstd::prelude::*;

use crate::ir::{Ident, Location};

verus! {

/// The width and kind of a number type.
#[derive(Clone, Copy, Debug, PartialEq, Eq, Hash, Structural)]
pub enum NumberKind {
    U8,
    U16,
    U32,
    U64,
    I8,
    I16,
    I32,
    I64,
    F32,
    F64,
}

/// The signedness of an integral scalar class.
#[derive(Clone, Copy, Debug, PartialEq, Eq, Hash, Structural)]
pub enum IntegralClass {
    Signed,
    Unsigned,
    Any,
}

/// A coarse classification of types, used to check that an operator applies.
#[derive(Clone, Copy, Debug, PartialEq, Eq, Hash, Structural)]
pub enum ScalarClass {
    Void,
    Boolean,
    Integral(IntegralClass),
    Fractional,
    Complex,
    Undefined,
}

/// The mathematical value of a [`Type`].
///
/// Record fields are listed in increasing order of their names, which makes
/// the structural equality of two records the equality of their name-to-type
/// maps.  A union is the set of its alternatives.
pub enum Ty {
    Number(NumberKind),
    Boolean,
    String,
    Symbol(Ident),
    Tuple(Seq<Ty>),
    Record(Seq<(Ident, Ty)>),
    Function(Seq<Ty>, Box<Ty>),
    Union(Set<Ident>),
    Any,
    /// Expected shape, actual type, main location, and the secondary
    /// locations, each with the type of the other operand.
    Conflict(Box<ExpectedTy>, Box<Ty>, Location, Seq<(Location, Ty)>),
}

/// The mathematical value of an [`ExpectedType`].
pub enum ExpectedTy {
    Specific(Ty),
    ScalarClass(ScalarClass),
    Union,
    Symbol,
    AnyOf(Seq<ExpectedTy>),
}

/// A type.  Conflicts are types too: a type error is stored on the entity
/// where it was found and flows on to the entities that depend on it.
#[derive(Debug)]
pub enum Type {
    Number(NumberKind),
    Boolean,
    String,
    Symbol(Ident),
    Tuple(Vec<Type>),
    /// Fields in increasing order of their names.
    Record(Vec<(Ident, Type)>),
    /// Parameter types and result type.
    Function(Vec<Type>, Box<Type>),
    Union(Union),
    /// Stands for any type inside the expected shape of a conflict.
    Any,
    Conflict(Box<Conflict>),
}

/// A tagged union: a set of symbol alternatives.
#[derive(Debug)]
pub struct Union {
    pub alternatives: Vec<Ident>,
}

/// A type mismatch, with what was expected, what was found and where.
#[derive(Debug)]
pub struct Conflict {
    pub expected: ExpectedType,
    pub actual: Type,
    pub main_location: Location,
    pub aux: Vec<AuxEntity>,
}

/// A secondary location of a conflict: the other operand of an operator,
/// with its type.
#[derive(Debug)]
pub struct AuxEntity {
    pub location: Location,
    pub other_operand: Type,
}

/// What a conflict expected to find.
#[derive(Debug)]
pub enum ExpectedType {
    Specific(Type),
    ScalarClass(ScalarClass),
    /// Any union type.
    Union,
    /// Any symbol type.
    Symbol,
    AnyOf(Vec<ExpectedType>),
}

impl Ty {
    /// The scalar class of a type: numbers are integral or fractional by
    /// kind, booleans are boolean, everything else is undefined.
    pub open spec fn scalar_class(self) -> ScalarClass {
        match self {
            Ty::Number(n) => number_class(n),
            Ty::Boolean => ScalarClass::Boolean,
            _ => ScalarClass::Undefined,
        }
    }

    /// Record fields are in strictly increasing order of their names, at every
    /// depth, so that each record is the one listing of its name-to-type map.
    pub open spec fn wf(self) -> bool
        decreases self, 0nat,
    {
        match self {
            Ty::Tuple(fields) => tys_wf(fields, fields.len()),
            Ty::Record(fields) => fields_increasing(fields) && fields_wf(fields, fields.len()),
            Ty::Function(parameters, result) => tys_wf(parameters, parameters.len()) && result.wf(),
            Ty::Conflict(expected, actual, _, aux) => expected.wf() && actual.wf() && aux_wf(
                aux,
                aux.len(),
            ),
            _ => true,
        }
    }
}

impl ExpectedTy {
    /// The types in the expected shape are well formed.
    pub open spec fn wf(self) -> bool
        decreases self, 0nat,
    {
        match self {
            ExpectedTy::Specific(t) => t.wf(),
            ExpectedTy::AnyOf(alternatives) => expecteds_wf(alternatives, alternatives.len()),
            _ => true,
        }
    }
}

/// The first `n` types are well formed.
pub open spec fn tys_wf(ts: Seq<Ty>, n: nat) -> bool
    decreases ts, n,
{
    if n == 0 || n > ts.len() {
        true
    } else {
        ts[n - 1].wf() && tys_wf(ts, (n - 1) as nat)
    }
}

/// The types of the first `n` fields are well formed.
pub open spec fn fields_wf(fields: Seq<(Ident, Ty)>, n: nat) -> bool
    decreases fields, n,
{
    if n == 0 || n > fields.len() {
        true
    } else {
        fields[n - 1].1.wf() && fields_wf(fields, (n - 1) as nat)
    }
}

/// The other-operand types of the first `n` secondary locations are well
/// formed.
pub open spec fn aux_wf(aux: Seq<(Location, Ty)>, n: nat) -> bool
    decreases aux, n,
{
    if n == 0 || n > aux.len() {
        true
    } else {
        aux[n - 1].1.wf() && aux_wf(aux, (n - 1) as nat)
    }
}

/// The first `n` expected shapes are well formed.
pub open spec fn expecteds_wf(es: Seq<ExpectedTy>, n: nat) -> bool
    decreases es, n,
{
    if n == 0 || n > es.len() {
        true
    } else {
        es[n - 1].wf() && expecteds_wf(es, (n - 1) as nat)
    }
}

pub proof fn lemma_tys_wf(ts: Seq<Ty>, n: nat)
    requires
        n <= ts.len(),
    ensures
        tys_wf(ts, n) <==> forall|i: int| 0 <= i < n ==> #[trigger] ts[i].wf(),
    decreases n,
{
    if n > 0 {
        lemma_tys_wf(ts, (n - 1) as nat);
        assert(tys_wf(ts, n) == (ts[n - 1].wf() && tys_wf(ts, (n - 1) as nat)));
    }
}

pub proof fn lemma_fields_wf(fields: Seq<(Ident, Ty)>, n: nat)
    requires
        n <= fields.len(),
    ensures
        fields_wf(fields, n) <==> forall|i: int| 0 <= i < n ==> #[trigger] fields[i].1.wf(),
    decreases n,
{
    if n > 0 {
        lemma_fields_wf(fields, (n - 1) as nat);
        assert(fields_wf(fields, n) == (fields[n - 1].1.wf() && fields_wf(fields, (n - 1) as nat)));
    }
}

pub proof fn lemma_aux_wf(aux: Seq<(Location, Ty)>, n: nat)
    requires
        n <= aux.len(),
    ensures
        aux_wf(aux, n) <==> forall|i: int| 0 <= i < n ==> #[trigger] aux[i].1.wf(),
    decreases n,
{
    if n > 0 {
        lemma_aux_wf(aux, (n - 1) as nat);
        assert(aux_wf(aux, n) == (aux[n - 1].1.wf() && aux_wf(aux, (n - 1) as nat)));
    }
}

pub proof fn lemma_expecteds_wf(es: Seq<ExpectedTy>, n: nat)
    requires
        n <= es.len(),
    ensures
        expecteds_wf(es, n) <==> forall|i: int| 0 <= i < n ==> #[trigger] es[i].wf(),
    decreases n,
{
    if n > 0 {
        lemma_expecteds_wf(es, (n - 1) as nat);
        assert(expecteds_wf(es, n) == (es[n - 1].wf() && expecteds_wf(es, (n - 1) as nat)));
    }
}

/// Whether the field names strictly increase.
pub open spec fn fields_increasing(fields: Seq<(Ident, Ty)>) -> bool {
    forall|i: int, j: int| 0 <= i < j < fields.len() ==> fields[i].0.0 < fields[j].0.0
}

pub open spec fn number_class(n: NumberKind) -> ScalarClass {
    match n {
        NumberKind::U8 | NumberKind::U16 | NumberKind::U32 | NumberKind::U64 => ScalarClass::Integral(
            IntegralClass::Unsigned,
        ),
        NumberKind::I8 | NumberKind::I16 | NumberKind::I32 | NumberKind::I64 => ScalarClass::Integral(
            IntegralClass::Signed,
        ),
        NumberKind::F32 | NumberKind::F64 => ScalarClass::Fractional,
    }
}

fn contains_ident(v: &Vec<Ident>, x: Ident) -> (r: bool)
    ensures
        r == v@.contains(x),
{
    let mut i: usize = 0;
    while i < v.len()
        invariant
            0 <= i <= v.len(),
            forall|j: int| 0 <= j < i ==> v@[j] != x,
        decreases v.len() - i,
    {
        if v[i] == x {
            return true;
        }
        i = i + 1;
    }
    false
}

impl Union {
    pub open spec fn view(&self) -> Set<Ident> {
        Set::new(|x: Ident| self.alternatives@.contains(x))
    }

    /// A copy of the union, alternatives in the same order.
    pub fn duplicate(&self) -> (r: Union)
        ensures
            r.alternatives@ == self.alternatives@,
    {
        let mut alternatives: Vec<Ident> = Vec::new();
        let mut i: usize = 0;
        while i < self.alternatives.len()
            invariant
                0 <= i <= self.alternatives.len(),
                alternatives@ == self.alternatives@.subrange(0, i as int),
            decreases self.alternatives.len() - i,
        {
            alternatives.push(self.alternatives[i]);
            i = i + 1;
            assert(alternatives@ =~= self.alternatives@.subrange(0, i as int));
        }
        assert(alternatives@ =~= self.alternatives@);
        Union { alternatives }
    }

    /// Whether `symbol` is one of the alternatives.
    pub fn contains(&self, symbol: Ident) -> (r: bool)
        ensures
            r == self@.contains(symbol),
    {
        let mut i: usize = 0;
        while i < self.alternatives.len()
            invariant
                0 <= i <= self.alternatives.len(),
                forall|j: int| 0 <= j < i ==> self.alternatives@[j] != symbol,
            decreases self.alternatives.len() - i,
        {
            if self.alternatives[i] == symbol {
                return true;
            }
            i = i + 1;
        }
        false
    }

    /// The union extended with `symbol`; a symbol already present leaves the
    /// union as it is.
    pub fn with(&self, symbol: Ident) -> (r: Union)
        ensures
            r@ == self@.insert(symbol),
            self@.contains(symbol) ==> r.alternatives@ == self.alternatives@,
            !self@.contains(symbol) ==> r.alternatives@ == self.alternatives@.push(symbol),
    {
        let mut alternatives = self.duplicate().alternatives;
        if !self.contains(symbol) {
            alternatives.push(symbol);
        }
        let r = Union { alternatives };
        assert forall|x: Ident| #[trigger] r@.contains(x) == self@.insert(symbol).contains(x) by {
            if self.alternatives@.contains(x) {
                let j = choose|j: int| 0 <= j < self.alternatives@.len() && self.alternatives@[j] == x;
                assert(r.alternatives@[j] == x);
            }
            if r.alternatives@.contains(x) && x != symbol {
                let j = choose|j: int| 0 <= j < r.alternatives@.len() && r.alternatives@[j] == x;
                assert(self.alternatives@[j] == x);
            }
            if x == symbol && !self@.contains(symbol) {
                assert(r.alternatives@[r.alternatives@.len() - 1] == x);
            }
        }
        assert(r@ =~= self@.insert(symbol));
        r
    }

    /// The alternatives, each once.
    pub fn distinct(&self) -> (r: Vec<Ident>)
        ensures
            r@.no_duplicates(),
            r@.to_set() == self@,
    {
        let mut r: Vec<Ident> = Vec::new();
        let mut i: usize = 0;
        while i < self.alternatives.len()
            invariant
                0 <= i <= self.alternatives.len(),
                r@.no_duplicates(),
                forall|y: Ident|
                    r@.contains(y) <==> self.alternatives@.subrange(0, i as int).contains(y),
            decreases self.alternatives.len() - i,
        {
            let x = self.alternatives[i];
            let present = contains_ident(&r, x);
            let ghost before = r@;
            assert(forall|y: Ident| before.contains(y) <==> self.alternatives@.subrange(0, i as int).contains(y));
            if !present {
                r.push(x);
            }
            proof {
                let next = self.alternatives@.subrange(0, i + 1);
                let prefix = self.alternatives@.subrange(0, i as int);
                assert(next =~= prefix.push(x));
                assert forall|y: Ident| r@.contains(y) <==> next.contains(y) by {
                    if r@.contains(y) {
                        let q = choose|q: int| 0 <= q < r@.len() && r@[q] == y;
                        if q < before.len() {
                            assert(before.contains(y));
                            let j = choose|j: int| 0 <= j < prefix.len() && prefix[j] == y;
                            assert(next[j] == y);
                        } else {
                            assert(next[i as int] == y);
                        }
                    }
                    if next.contains(y) {
                        let j = choose|j: int| 0 <= j < next.len() && next[j] == y;
                        if j < i {
                            assert(prefix[j] == y);
                            assert(prefix.contains(y));
                            assert(before.contains(y));
                            let q = choose|q: int| 0 <= q < before.len() && before[q] == y;
                            assert(r@[q] == y);
                        } else if present {
                            assert(y == x);
                            assert(before.contains(y));
                            let q = choose|q: int| 0 <= q < before.len() && before[q] == y;
                            assert(r@[q] == y);
                        } else {
                            assert(y == x);
                            assert(r@[before.len() as int] == y);
                        }
                    }
                }
            }
            i = i + 1;
        }
        proof {
            assert(self.alternatives@.subrange(0, self.alternatives@.len() as int)
                =~= self.alternatives@);
            assert(r@.to_set() =~= self@);
        }
        r
    }

    /// The number of distinct alternatives.
    pub fn size(&self) -> (r: usize)
        ensures
            r == self@.len(),
    {
        let d = self.distinct();
        proof {
            d@.unique_seq_to_set();
        }
        d.len()
    }

    /// Whether two unions have the same alternatives, in any order.
    pub fn same(&self, other: &Union) -> (r: bool)
        ensures
            r == (self@ == other@),
    {
        let mut i: usize = 0;
        while i < self.alternatives.len()
            invariant
                0 <= i <= self.alternatives.len(),
                forall|j: int| 0 <= j < i ==> other@.contains(#[trigger] self.alternatives@[j]),
            decreases self.alternatives.len() - i,
        {
            if !other.contains(self.alternatives[i]) {
                assert(self@.contains(self.alternatives@[i as int]));
                return false;
            }
            i = i + 1;
        }
        let mut k: usize = 0;
        while k < other.alternatives.len()
            invariant
                0 <= k <= other.alternatives.len(),
                forall|j: int| 0 <= j < k ==> self@.contains(#[trigger] other.alternatives@[j]),
            decreases other.alternatives.len() - k,
        {
            if !self.contains(other.alternatives[k]) {
                assert(other@.contains(other.alternatives@[k as int]));
                return false;
            }
            k = k + 1;
        }
        assert forall|x: Ident| self@.contains(x) implies other@.contains(x) by {
            let j = choose|j: int| 0 <= j < self.alternatives@.len() && self.alternatives@[j] == x;
        }
        assert(self@ =~= other@);
        true
    }
}

impl Type {
    pub open spec fn view(&self) -> Ty
        decreases self,
    {
        match self {
            Type::Number(n) => Ty::Number(*n),
            Type::Boolean => Ty::Boolean,
            Type::String => Ty::String,
            Type::Symbol(s) => Ty::Symbol(*s),
            Type::Tuple(fields) => Ty::Tuple(
                Seq::new(
                    fields.len() as nat,
                    |i: int|
                        if 0 <= i < fields.len() {
                            fields[i].view()
                        } else {
                            Ty::Any
                        },
                ),
            ),
            Type::Record(fields) => Ty::Record(
                Seq::new(
                    fields.len() as nat,
                    |i: int|
                        if 0 <= i < fields.len() {
                            (fields[i].0, fields[i].1.view())
                        } else {
                            (Ident(0), Ty::Any)
                        },
                ),
            ),
            Type::Function(parameters, result) => Ty::Function(
                Seq::new(
                    parameters.len() as nat,
                    |i: int|
                        if 0 <= i < parameters.len() {
                            parameters[i].view()
                        } else {
                            Ty::Any
                        },
                ),
                Box::new(result.view()),
            ),
            Type::Union(u) => Ty::Union(u@),
            Type::Any => Ty::Any,
            Type::Conflict(c) => Ty::Conflict(
                Box::new(c.expected.view()),
                Box::new(c.actual.view()),
                c.main_location,
                Seq::new(
                    c.aux.len() as nat,
                    |i: int|
                        if 0 <= i < c.aux.len() {
                            (c.aux[i].location, c.aux[i].other_operand.view())
                        } else {
                            (c.main_location, Ty::Any)
                        },
                ),
            ),
        }
    }

    /// The scalar class of the type.
    pub fn scalar_class(&self) -> (r: ScalarClass)
        ensures
            r == self@.scalar_class(),
    {
        match self {
            Type::Number(n) => match n {
                NumberKind::U8 | NumberKind::U16 | NumberKind::U32 | NumberKind::U64 => {
                    ScalarClass::Integral(IntegralClass::Unsigned)
                },
                NumberKind::I8 | NumberKind::I16 | NumberKind::I32 | NumberKind::I64 => {
                    ScalarClass::Integral(IntegralClass::Signed)
                },
                NumberKind::F32 | NumberKind::F64 => ScalarClass::Fractional,
            },
            Type::Boolean => ScalarClass::Boolean,
            _ => ScalarClass::Undefined,
        }
    }

    /// Structural equality of two types; unions compare as sets.
    pub fn same(&self, other: &Type) -> (r: bool)
        ensures
            r == (self@ == other@),
        decreases self,
    {
        match (self, other) {
            (Type::Number(a), Type::Number(b)) => *a == *b,
            (Type::Boolean, Type::Boolean) => true,
            (Type::String, Type::String) => true,
            (Type::Symbol(a), Type::Symbol(b)) => *a == *b,
            (Type::Tuple(a), Type::Tuple(b)) => {
                if a.len() != b.len() {
                    assert(self@->Tuple_0.len() != other@->Tuple_0.len());
                    return false;
                }
                let mut i: usize = 0;
                while i < a.len()
                    invariant
                        a.len() == b.len(),
                        *self == Type::Tuple(*a),
                        *other == Type::Tuple(*b),
                        0 <= i <= a.len(),
                        forall|j: int| 0 <= j < i ==> a[j]@ == b[j]@,
                    decreases a.len() - i,
                {
                    if !a[i].same(&b[i]) {
                        assert(self@->Tuple_0[i as int] != other@->Tuple_0[i as int]);
                        return false;
                    }
                    i = i + 1;
                }
                assert(self@->Tuple_0 =~= other@->Tuple_0);
                true
            },
            (Type::Record(a), Type::Record(b)) => {
                if a.len() != b.len() {
                    assert(self@->Record_0.len() != other@->Record_0.len());
                    return false;
                }
                let mut i: usize = 0;
                while i < a.len()
                    invariant
                        a.len() == b.len(),
                        *self == Type::Record(*a),
                        *other == Type::Record(*b),
                        0 <= i <= a.len(),
                        forall|j: int| 0 <= j < i ==> a[j].0 == b[j].0 && a[j].1@ == b[j].1@,
                    decreases a.len() - i,
                {
                    if a[i].0 != b[i].0 || !a[i].1.same(&b[i].1) {
                        assert(self@->Record_0[i as int] != other@->Record_0[i as int]);
                        return false;
                    }
                    i = i + 1;
                }
                assert(self@->Record_0 =~= other@->Record_0);
                true
            },
            (Type::Function(ap, ar), Type::Function(bp, br)) => {
                if ap.len() != bp.len() {
                    assert(self@->Function_0.len() != other@->Function_0.len());
                    return false;
                }
                let mut i: usize = 0;
                while i < ap.len()
                    invariant
                        ap.len() == bp.len(),
                        *self == Type::Function(*ap, *ar),
                        *other == Type::Function(*bp, *br),
                        0 <= i <= ap.len(),
                        forall|j: int| 0 <= j < i ==> ap[j]@ == bp[j]@,
                    decreases ap.len() - i,
                {
                    if !ap[i].same(&bp[i]) {
                        assert(self@->Function_0[i as int] != other@->Function_0[i as int]);
                        return false;
                    }
                    i = i + 1;
                }
                assert(self@->Function_0 =~= other@->Function_0);
                ar.same(br)
            },
            (Type::Union(a), Type::Union(b)) => a.same(b),
            (Type::Any, Type::Any) => true,
            (Type::Conflict(a), Type::Conflict(b)) => {
                if a.main_location != b.main_location || !a.expected.same(&b.expected)
                    || !a.actual.same(&b.actual) {
                    return false;
                }
                if a.aux.len() != b.aux.len() {
                    assert(self@->Conflict_3.len() != other@->Conflict_3.len());
                    return false;
                }
                let mut i: usize = 0;
                while i < a.aux.len()
                    invariant
                        a.aux.len() == b.aux.len(),
                        *self == Type::Conflict(*a),
                        *other == Type::Conflict(*b),
                        a.main_location == b.main_location,
                        a.expected@ == b.expected@,
                        a.actual@ == b.actual@,
                        0 <= i <= a.aux.len(),
                        forall|j: int|
                            0 <= j < i ==> a.aux[j].location == b.aux[j].location
                                && a.aux[j].other_operand@ == b.aux[j].other_operand@,
                    decreases a.aux.len() - i,
                {
                    if a.aux[i].location != b.aux[i].location || !a.aux[i].other_operand.same(
                        &b.aux[i].other_operand,
                    ) {
                        assert(self@->Conflict_3[i as int] != other@->Conflict_3[i as int]);
                        return false;
                    }
                    i = i + 1;
                }
                assert(self@->Conflict_3 =~= other@->Conflict_3);
                true
            },
            _ => false,
        }
    }

    /// A copy of the type.
    pub fn duplicate(&self) -> (r: Type)
        ensures
            r@ == self@,
        decreases self,
    {
        match self {
            Type::Number(n) => Type::Number(*n),
            Type::Boolean => Type::Boolean,
            Type::String => Type::String,
            Type::Symbol(s) => Type::Symbol(*s),
            Type::Tuple(fields) => {
                let copied = duplicate_all(fields);
                let r = Type::Tuple(copied);
                assert(r@->Tuple_0 =~= self@->Tuple_0);
                r
            },
            Type::Record(fields) => {
                let r = Type::Record(duplicate_fields(fields));
                assert(r@->Record_0 =~= self@->Record_0);
                r
            },
            Type::Function(parameters, result) => {
                let copied = duplicate_all(parameters);
                let r = Type::Function(copied, Box::new(result.duplicate()));
                assert(r@->Function_0 =~= self@->Function_0);
                r
            },
            Type::Union(u) => Type::Union(u.duplicate()),
            Type::Any => Type::Any,
            Type::Conflict(c) => {
                let aux = duplicate_aux(&c.aux);
                let r = Type::Conflict(
                    Box::new(
                        Conflict {
                            expected: c.expected.duplicate(),
                            actual: c.actual.duplicate(),
                            main_location: c.main_location,
                            aux,
                        },
                    ),
                );
                assert(r@->Conflict_3 =~= self@->Conflict_3);
                r
            },
        }
    }
}

/// Copies of the given types, in order.
pub fn duplicate_all(types: &Vec<Type>) -> (r: Vec<Type>)
    ensures
        r.len() == types.len(),
        forall|j: int| 0 <= j < types.len() ==> r[j]@ == types[j]@,
    decreases types,
{
    let mut copied: Vec<Type> = Vec::new();
    let mut i: usize = 0;
    while i < types.len()
        invariant
            0 <= i <= types.len(),
            copied.len() == i,
            forall|j: int| 0 <= j < i ==> copied[j]@ == types[j]@,
        decreases types.len() - i,
    {
        copied.push(types[i].duplicate());
        i = i + 1;
    }
    copied
}

fn duplicate_fields(fields: &Vec<(Ident, Type)>) -> (r: Vec<(Ident, Type)>)
    ensures
        r.len() == fields.len(),
        forall|j: int| 0 <= j < fields.len() ==> r[j].0 == fields[j].0 && r[j].1@ == fields[j].1@,
    decreases fields,
{
    let mut copied: Vec<(Ident, Type)> = Vec::new();
    let mut i: usize = 0;
    while i < fields.len()
        invariant
            0 <= i <= fields.len(),
            copied.len() == i,
            forall|j: int| 0 <= j < i ==> copied[j].0 == fields[j].0 && copied[j].1@ == fields[j].1@,
        decreases fields.len() - i,
    {
        let t = fields[i].1.duplicate();
        copied.push((fields[i].0, t));
        i = i + 1;
    }
    copied
}

fn duplicate_aux(aux: &Vec<AuxEntity>) -> (r: Vec<AuxEntity>)
    ensures
        r.len() == aux.len(),
        forall|j: int|
            0 <= j < aux.len() ==> r[j].location == aux[j].location && r[j].other_operand@
                == aux[j].other_operand@,
    decreases aux,
{
    let mut copied: Vec<AuxEntity> = Vec::new();
    let mut i: usize = 0;
    while i < aux.len()
        invariant
            0 <= i <= aux.len(),
            copied.len() == i,
            forall|j: int|
                0 <= j < i ==> copied[j].location == aux[j].location && copied[j].other_operand@
                    == aux[j].other_operand@,
        decreases aux.len() - i,
    {
        let t = aux[i].other_operand.duplicate();
        copied.push(AuxEntity { location: aux[i].location, other_operand: t });
        i = i + 1;
    }
    copied
}

fn duplicate_expected_all(alternatives: &Vec<ExpectedType>) -> (r: Vec<ExpectedType>)
    ensures
        r.len() == alternatives.len(),
        forall|j: int| 0 <= j < alternatives.len() ==> r[j]@ == alternatives[j]@,
    decreases alternatives,
{
    let mut copied: Vec<ExpectedType> = Vec::new();
    let mut i: usize = 0;
    while i < alternatives.len()
        invariant
            0 <= i <= alternatives.len(),
            copied.len() == i,
            forall|j: int| 0 <= j < i ==> copied[j]@ == alternatives[j]@,
        decreases alternatives.len() - i,
    {
        copied.push(alternatives[i].duplicate());
        i = i + 1;
    }
    copied
}

impl ExpectedType {
    pub open spec fn view(&self) -> ExpectedTy
        decreases self,
    {
        match self {
            ExpectedType::Specific(t) => ExpectedTy::Specific(t.view()),
            ExpectedType::ScalarClass(c) => ExpectedTy::ScalarClass(*c),
            ExpectedType::Union => ExpectedTy::Union,
            ExpectedType::Symbol => ExpectedTy::Symbol,
            ExpectedType::AnyOf(alternatives) => ExpectedTy::AnyOf(
                Seq::new(
                    alternatives.len() as nat,
                    |i: int|
                        if 0 <= i < alternatives.len() {
                            alternatives[i].view()
                        } else {
                            ExpectedTy::Union
                        },
                ),
            ),
        }
    }

    /// Structural equality of two expected shapes.
    pub fn same(&self, other: &ExpectedType) -> (r: bool)
        ensures
            r == (self@ == other@),
        decreases self,
    {
        match (self, other) {
            (ExpectedType::Specific(a), ExpectedType::Specific(b)) => a.same(b),
            (ExpectedType::ScalarClass(a), ExpectedType::ScalarClass(b)) => *a == *b,
            (ExpectedType::Union, ExpectedType::Union) => true,
            (ExpectedType::Symbol, ExpectedType::Symbol) => true,
            (ExpectedType::AnyOf(a), ExpectedType::AnyOf(b)) => {
                if a.len() != b.len() {
                    assert(self@->AnyOf_0.len() != other@->AnyOf_0.len());
                    return false;
                }
                let mut i: usize = 0;
                while i < a.len()
                    invariant
                        a.len() == b.len(),
                        *self == ExpectedType::AnyOf(*a),
                        *other == ExpectedType::AnyOf(*b),
                        0 <= i <= a.len(),
                        forall|j: int| 0 <= j < i ==> a[j]@ == b[j]@,
                    decreases a.len() - i,
                {
                    if !a[i].same(&b[i]) {
                        assert(self@->AnyOf_0[i as int] != other@->AnyOf_0[i as int]);
                        return false;
                    }
                    i = i + 1;
                }
                assert(self@->AnyOf_0 =~= other@->AnyOf_0);
                true
            },
            _ => false,
        }
    }

    /// A copy of the expected shape.
    pub fn duplicate(&self) -> (r: ExpectedType)
        ensures
            r@ == self@,
        decreases self,
    {
        match self {
            ExpectedType::Specific(t) => ExpectedType::Specific(t.duplicate()),
            ExpectedType::ScalarClass(c) => ExpectedType::ScalarClass(*c),
            ExpectedType::Union => ExpectedType::Union,
            ExpectedType::Symbol => ExpectedType::Symbol,
            ExpectedType::AnyOf(alternatives) => {
                let copied = duplicate_expected_all(alternatives);
                let r = ExpectedType::AnyOf(copied);
                assert(r@->AnyOf_0 =~= self@->AnyOf_0);
                r
            },
        }
    }
}

/// The boolean type.
pub fn bool_ty() -> (r: Type)
    ensures
        r@ == Ty::Boolean,
{
    Type::Boolean
}

/// The view of a type has the variant of the type itself.
pub proof fn lemma_view_variant(t: &Type)
    ensures
        (t@ is Boolean) == (t is Boolean),
        (t@ is Symbol) == (t is Symbol),
        (t@ is Record) == (t is Record),
        (t@ is Function) == (t is Function),
        (t@ is Union) == (t is Union),
        (t@ is Number) == (t is Number),
{
    match t {
        Type::Number(_) => {},
        Type::Boolean => {},
        Type::String => {},
        Type::Symbol(_) => {},
        Type::Tuple(_) => {},
        Type::Record(_) => {},
        Type::Function(_, _) => {},
        Type::Union(_) => {},
        Type::Any => {},
        Type::Conflict(_) => {},
    }
}

impl PartialEq for Type {
    fn eq(&self, other: &Type) -> (r: bool) {
        self.same(other)
    }
}

impl vstd::std_specs::cmp::PartialEqSpecImpl for Type {
    open spec fn obeys_eq_spec() -> bool {
        true
    }

    open spec fn eq_spec(&self, other: &Type) -> bool {
        self@ == other@
    }
}

impl PartialEq for ExpectedType {
    fn eq(&self, other: &ExpectedType) -> (r: bool) {
        self.same(other)
    }
}

impl vstd::std_specs::cmp::PartialEqSpecImpl for ExpectedType {
    open spec fn obeys_eq_spec() -> bool {
        true
    }

    open spec fn eq_spec(&self, other: &ExpectedType) -> bool {
        self@ == other@
    }
}

} // verus!
