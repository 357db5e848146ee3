//! The pull strategy: the type of one entity is resolved on demand, by first
//! resolving the entities it depends on.  Every type found is cached, and a
//! request for an entity whose resolution is already under way fails as a
//! cyclic dependency.
use vstd::prelude::*;

use crate::element::{binding_targets, targets_of, Element};
use crate::error::Error;
use crate::infer::{
    all_bindings_known, all_known, bindings_type, extends, infer_type, lemma_infer_monotone,
    spec_infer, type_of, types_of,
};
use crate::infer_types::{
    after_rounds, all_supported, from_scratch, lemma_first_round, lemma_from_scratch_agrees,
    lemma_from_scratch_is_after, lemma_rounds_extend, lemma_settle_extends, unknown_table,
};
use crate::ir::{Entity, Location};
use crate::store::Store;
use crate::ty::{Ty, Type};

verus! {

/// Every cached type is what its element's rule gives from the cache.
#[verifier::opaque]
pub open spec fn consistent(
    elements: Seq<Element>,
    locations: Seq<Location>,
    types: Seq<Option<Ty>>,
) -> bool {
    forall|i: int|
        0 <= i < types.len() && (#[trigger] types[i]) is Some ==> spec_infer(
            elements[i],
            types,
            locations,
        ) == types[i]
}

/// The number of entities whose resolution is not under way.
pub open spec fn idle_count(in_flight: Seq<bool>) -> nat
    decreases in_flight.len(),
{
    if in_flight.len() == 0 {
        0
    } else {
        idle_count(in_flight.drop_last()) + if in_flight.last() {
            0nat
        } else {
            1nat
        }
    }
}

proof fn lemma_idle_count_bound(in_flight: Seq<bool>)
    ensures
        idle_count(in_flight) <= in_flight.len(),
    decreases in_flight.len(),
{
    if in_flight.len() > 0 {
        lemma_idle_count_bound(in_flight.drop_last());
    }
}

proof fn lemma_idle_count_mark(in_flight: Seq<bool>, i: int)
    requires
        0 <= i < in_flight.len(),
        !in_flight[i],
    ensures
        idle_count(in_flight.update(i, true)) + 1 == idle_count(in_flight),
    decreases in_flight.len(),
{
    let marked = in_flight.update(i, true);
    if i == in_flight.len() - 1 {
        assert(marked.drop_last() =~= in_flight.drop_last());
    } else {
        assert(marked.drop_last() =~= in_flight.drop_last().update(i, true));
        lemma_idle_count_mark(in_flight.drop_last(), i);
    }
}

/// The entities whose types the element's rule reads.
pub open spec fn element_dependencies(element: Element) -> Seq<Entity> {
    match element {
        Element::Number(_) | Element::String(_) | Element::Symbol(_) => seq![],
        Element::Tuple(t) => t.fields@,
        Element::Record(r) => binding_targets(r.fields@),
        Element::UnOp(u) => seq![u.operand],
        Element::BiOp(b) => seq![b.lhs, b.rhs],
        Element::Variable(v) => seq![v.initializer],
        Element::Select(s) => seq![s.record],
        Element::Apply(a) => seq![a.function] + a.parameters@,
        Element::Parameter(p) => optional_entity(p.signature),
        Element::Capture(c) => seq![c.captured],
        Element::Closure(c) => optional_entity(c.signature) + c.parameters@,
        Element::Module(m) => binding_targets(m.variables@),
    }
}

pub open spec fn optional_entity(e: Option<Entity>) -> Seq<Entity> {
    match e {
        Some(e) => seq![e],
        None => seq![],
    }
}

/// When a rule gives a type, the types of all the entities it reads are
/// known.
pub proof fn lemma_known_dependencies(
    element: Element,
    types: Seq<Option<Ty>>,
    locations: Seq<Location>,
)
    requires
        spec_infer(element, types, locations) is Some,
    ensures
        forall|i: int|
            0 <= i < element_dependencies(element).len() ==> type_of(
                types,
                #[trigger] element_dependencies(element)[i],
            ) is Some,
{
    let deps = element_dependencies(element);
    assert forall|i: int| 0 <= i < deps.len() implies type_of(types, #[trigger] deps[i]) is Some by {
        match element {
            Element::Tuple(t) => {
                assert(type_of(types, t.fields@[i]) is Some);
            },
            Element::Record(r) => {
                assert(type_of(types, r.fields@[i].1) is Some);
            },
            Element::Apply(a) => {
                if i > 0 {
                    assert(deps[i] == a.parameters@[i - 1]);
                    assert(type_of(types, a.parameters@[i - 1]) is Some);
                }
            },
            Element::Closure(c) => {
                let k = optional_entity(c.signature).len();
                if i >= k {
                    assert(deps[i] == c.parameters@[i - k]);
                    assert(type_of(types, c.parameters@[i - k]) is Some);
                }
            },
            Element::Module(m) => {
                assert(type_of(types, m.variables@[i].1) is Some);
            },
            _ => {},
        }
    }
}

fn push_all(deps: &mut Vec<Entity>, es: &Vec<Entity>)
    ensures
        final(deps)@ == old(deps)@ + es@,
{
    let ghost start = deps@;
    let mut i: usize = 0;
    while i < es.len()
        invariant
            0 <= i <= es.len(),
            deps@ == start + es@.subrange(0, i as int),
        decreases es.len() - i,
    {
        deps.push(es[i]);
        i = i + 1;
        assert(deps@ =~= start + es@.subrange(0, i as int));
    }
    assert(es@.subrange(0, es.len() as int) =~= es@);
}

/// The entities whose types the element's rule reads.
fn dependencies(element: &Element) -> (r: Vec<Entity>)
    ensures
        r@ == element_dependencies(*element),
{
    let mut deps: Vec<Entity> = Vec::new();
    match element {
        Element::Number(_) | Element::String(_) | Element::Symbol(_) => {},
        Element::Tuple(t) => push_all(&mut deps, &t.fields),
        Element::Record(r) => deps = targets_of(&r.fields),
        Element::UnOp(u) => deps.push(u.operand),
        Element::BiOp(b) => {
            deps.push(b.lhs);
            deps.push(b.rhs);
        },
        Element::Variable(v) => deps.push(v.initializer),
        Element::Select(s) => deps.push(s.record),
        Element::Apply(a) => {
            deps.push(a.function);
            push_all(&mut deps, &a.parameters);
        },
        Element::Parameter(p) => {
            if let Some(s) = p.signature {
                deps.push(s);
            }
        },
        Element::Capture(c) => deps.push(c.captured),
        Element::Closure(c) => {
            if let Some(s) = c.signature {
                deps.push(s);
            }
            push_all(&mut deps, &c.parameters);
        },
        Element::Module(m) => deps = targets_of(&m.variables),
    }
    assert(deps@ =~= element_dependencies(*element));
    deps
}

proof fn lemma_agree_entities(a: Seq<Option<Ty>>, b: Seq<Option<Ty>>, es: Seq<Entity>)
    requires
        forall|i: int| 0 <= i < es.len() ==> type_of(a, #[trigger] es[i]) == type_of(b, es[i]),
    ensures
        all_known(a, es) == all_known(b, es),
        types_of(a, es) == types_of(b, es),
{
    assert(types_of(a, es) =~= types_of(b, es));
}

proof fn lemma_agree_bindings(
    a: Seq<Option<Ty>>,
    b: Seq<Option<Ty>>,
    bindings: Seq<(crate::ir::Ident, Entity)>,
)
    requires
        forall|i: int|
            0 <= i < bindings.len() ==> type_of(a, #[trigger] bindings[i].1) == type_of(b, bindings[i].1),
    ensures
        all_bindings_known(a, bindings) == all_bindings_known(b, bindings),
        bindings_type(a, bindings) == bindings_type(b, bindings),
{
    assert(bindings_type(a, bindings)->Record_0 =~= bindings_type(b, bindings)->Record_0);
}

/// A rule reads only the types of the element's dependencies.
pub proof fn lemma_infer_local(
    element: Element,
    a: Seq<Option<Ty>>,
    b: Seq<Option<Ty>>,
    locations: Seq<Location>,
)
    requires
        forall|i: int|
            0 <= i < element_dependencies(element).len() ==> type_of(
                a,
                #[trigger] element_dependencies(element)[i],
            ) == type_of(b, element_dependencies(element)[i]),
    ensures
        spec_infer(element, a, locations) == spec_infer(element, b, locations),
{
    let deps = element_dependencies(element);
    match element {
        Element::Tuple(t) => {
            assert forall|i: int| 0 <= i < t.fields@.len() implies type_of(a, #[trigger] t.fields@[i])
                == type_of(b, t.fields@[i]) by {
                assert(deps[i] == t.fields@[i]);
            }
            lemma_agree_entities(a, b, t.fields@);
        },
        Element::Record(r) => {
            assert forall|i: int| 0 <= i < r.fields@.len() implies type_of(
                a,
                #[trigger] r.fields@[i].1,
            ) == type_of(b, r.fields@[i].1) by {
                assert(deps[i] == r.fields@[i].1);
            }
            lemma_agree_bindings(a, b, r.fields@);
        },
        Element::UnOp(u) => {
            assert(deps[0] == u.operand);
        },
        Element::BiOp(o) => {
            assert(deps[0] == o.lhs);
            assert(deps[1] == o.rhs);
        },
        Element::Variable(v) => {
            assert(deps[0] == v.initializer);
        },
        Element::Select(x) => {
            assert(deps[0] == x.record);
        },
        Element::Apply(f) => {
            assert(deps[0] == f.function);
            assert forall|i: int| 0 <= i < f.parameters@.len() implies type_of(
                a,
                #[trigger] f.parameters@[i],
            ) == type_of(b, f.parameters@[i]) by {
                assert(deps[i + 1] == f.parameters@[i]);
            }
            lemma_agree_entities(a, b, f.parameters@);
        },
        Element::Parameter(p) => {
            if p.signature is Some {
                assert(deps[0] == p.signature.unwrap());
            }
        },
        Element::Capture(c) => {
            assert(deps[0] == c.captured);
        },
        Element::Closure(c) => {
            let k = optional_entity(c.signature).len();
            if c.signature is Some {
                assert(deps[0] == c.signature.unwrap());
            }
            assert forall|i: int| 0 <= i < c.parameters@.len() implies type_of(
                a,
                #[trigger] c.parameters@[i],
            ) == type_of(b, c.parameters@[i]) by {
                assert(deps[i + k] == c.parameters@[i]);
            }
            lemma_agree_entities(a, b, c.parameters@);
        },
        Element::Module(m) => {
            assert forall|i: int| 0 <= i < m.variables@.len() implies type_of(
                a,
                #[trigger] m.variables@[i].1,
            ) == type_of(b, m.variables@[i].1) by {
                assert(deps[i] == m.variables@[i].1);
            }
            lemma_agree_bindings(a, b, m.variables@);
        },
        _ => {},
    }
}

/// The entity got its type in round `k` from scratch, that round's table
/// agrees with the final one, and no entity whose resolution is under way
/// had a type by then: pulling the entity meets no cycle.
pub open spec fn ready(
    elements: Seq<Element>,
    locations: Seq<Location>,
    in_flight: Seq<bool>,
    e: Entity,
    k: nat,
) -> bool {
    &&& 1 <= k
    &&& e.0 < elements.len()
    &&& after_rounds(elements, locations, k)[e.0 as int] is Some
    &&& after_rounds(elements, locations, (k - 1) as nat)[e.0 as int] is None
    &&& extends(after_rounds(elements, locations, k), from_scratch(elements, locations))
    &&& forall|i: int|
        0 <= i < in_flight.len() && #[trigger] in_flight[i] ==> after_rounds(
            elements,
            locations,
            k,
        )[i] is None
}

/// An entity that the fixpoint strategy types from scratch is ready in the
/// round it got its type, when no resolution is under way.
pub proof fn lemma_ready_from_scratch(
    elements: Seq<Element>,
    locations: Seq<Location>,
    in_flight: Seq<bool>,
    e: Entity,
) -> (k: nat)
    requires
        e.0 < elements.len(),
        from_scratch(elements, locations)[e.0 as int] is Some,
        forall|i: int| 0 <= i < in_flight.len() ==> !in_flight[i],
    ensures
        ready(elements, locations, in_flight, e, k),
{
    let m = lemma_from_scratch_is_after(elements, locations);
    let k = lemma_first_round(elements, locations, e.0 as int, m);
    lemma_rounds_extend(elements, locations, k, m);
    k
}

/// A memoizing type database over an entity store.
pub struct Db {
    pub store: Store,
    /// Which entities' resolutions are under way.
    pub in_flight: Vec<bool>,
}

impl Db {
    pub open spec fn wf(&self) -> bool {
        &&& self.store.wf()
        &&& self.in_flight.len() == self.store.elements.len()
        &&& consistent(self.store.elements@, self.store.locations@, self.store.table())
        &&& extends(self.store.table(), from_scratch(self.store.elements@, self.store.locations@))
    }

    /// A database over a store in which no type is known yet.
    pub fn new(store: Store) -> (r: Db)
        requires
            store.wf(),
            forall|i: int| 0 <= i < store.types@.len() ==> (#[trigger] store.types@[i]) is None,
        ensures
            r.wf(),
            r.store == store,
            forall|i: int| 0 <= i < r.in_flight.len() ==> !r.in_flight[i],
    {
        let mut in_flight: Vec<bool> = Vec::new();
        let mut i: usize = 0;
        while i < store.elements.len()
            invariant
                0 <= i <= store.elements.len(),
                in_flight.len() == i,
                forall|j: int| 0 <= j < i ==> !in_flight[j],
            decreases store.elements.len() - i,
        {
            in_flight.push(false);
            i = i + 1;
        }
        proof {
            reveal(consistent);
            let n = store.elements@.len();
            lemma_settle_extends(
                store.elements@,
                store.locations@,
                unknown_table(n),
                (n + 1) as nat,
            );
        }
        Db { store, in_flight }
    }

    /// The type of an entity, resolved and cached on first request.
    pub fn ty(&mut self, e: Entity) -> (r: Result<Type, Error>)
        requires
            old(self).wf(),
        ensures
            final(self).wf(),
            final(self).store.elements@ == old(self).store.elements@,
            final(self).store.locations@ == old(self).store.locations@,
            final(self).in_flight@ == old(self).in_flight@,
            extends(old(self).store.table(), final(self).store.table()),
            e.0 >= old(self).store.elements@.len() ==> r == Err::<Type, Error>(
                Error::UnknownEntity(e),
            ),
            type_of(old(self).store.table(), e) is Some ==> r is Ok && type_of(
                old(self).store.table(),
                e,
            ) == Some(r->Ok_0@),
            r is Ok ==> type_of(final(self).store.table(), e) == Some(r->Ok_0@),
            r != Err::<Type, Error>(Error::MissingAnnotation),
            r is Ok ==> from_scratch(old(self).store.elements@, old(self).store.locations@)[e.0 as int]
                == Some(r->Ok_0@),
            e.0 < old(self).store.elements@.len() && !old(self).in_flight[e.0 as int]
                && !old(self).store.elements@[e.0 as int].is_unsupported() && spec_infer(
                old(self).store.elements@[e.0 as int],
                old(self).store.table(),
                old(self).store.locations@,
            ) is Some ==> r is Ok,
            e.0 < old(self).store.elements@.len() && all_supported(old(self).store.elements@)
                && (forall|i: int| 0 <= i < old(self).in_flight.len() ==> !old(self).in_flight[i])
                && from_scratch(old(self).store.elements@, old(self).store.locations@)[e.0 as int]
                is Some ==> r is Ok,
            e.0 < old(self).store.elements@.len() && type_of(old(self).store.table(), e) is None
                && old(self).in_flight[e.0 as int] ==> r == Err::<Type, Error>(
                Error::CyclicDependency(e),
            ),
    {
        proof {
            lemma_idle_count_bound(self.in_flight@);
            if e.0 < self.store.elements@.len() && all_supported(self.store.elements@) && (forall|
                i: int,
            | 0 <= i < self.in_flight.len() ==> !self.in_flight[i]) && from_scratch(
                self.store.elements@,
                self.store.locations@,
            )[e.0 as int] is Some {
                let k = lemma_ready_from_scratch(
                    self.store.elements@,
                    self.store.locations@,
                    self.in_flight@,
                    e,
                );
            }
        }
        self.resolve(e, self.in_flight.len())
    }

    fn resolve(&mut self, e: Entity, budget: usize) -> (r: Result<Type, Error>)
        requires
            old(self).wf(),
            budget >= idle_count(old(self).in_flight@),
        ensures
            final(self).wf(),
            final(self).store.elements@ == old(self).store.elements@,
            final(self).store.locations@ == old(self).store.locations@,
            final(self).in_flight@ == old(self).in_flight@,
            extends(old(self).store.table(), final(self).store.table()),
            forall|i: int|
                0 <= i < old(self).in_flight.len() && #[trigger] old(self).in_flight[i]
                    ==> final(self).store.table()[i] == old(self).store.table()[i],
            e.0 >= old(self).store.elements@.len() ==> r == Err::<Type, Error>(
                Error::UnknownEntity(e),
            ),
            type_of(old(self).store.table(), e) is Some ==> r is Ok && type_of(
                old(self).store.table(),
                e,
            ) == Some(r->Ok_0@),
            r is Ok ==> type_of(final(self).store.table(), e) == Some(r->Ok_0@),
            r != Err::<Type, Error>(Error::MissingAnnotation),
            r is Ok ==> from_scratch(old(self).store.elements@, old(self).store.locations@)[e.0 as int]
                == Some(r->Ok_0@),
            e.0 < old(self).store.elements@.len() && !old(self).in_flight[e.0 as int]
                && !old(self).store.elements@[e.0 as int].is_unsupported() && spec_infer(
                old(self).store.elements@[e.0 as int],
                old(self).store.table(),
                old(self).store.locations@,
            ) is Some ==> r is Ok,
            all_supported(old(self).store.elements@) && (exists|k: nat|
                ready(
                    old(self).store.elements@,
                    old(self).store.locations@,
                    old(self).in_flight@,
                    e,
                    k,
                )) ==> r is Ok,
            e.0 < old(self).store.elements@.len() && type_of(old(self).store.table(), e) is None
                && old(self).in_flight[e.0 as int] ==> r == Err::<Type, Error>(
                Error::CyclicDependency(e),
            ),
        decreases budget,
    {
        let ghost elements = self.store.elements@;
        let ghost locations = self.store.locations@;
        let ghost ranked = all_supported(elements) && exists|k: nat|
            ready(elements, locations, self.in_flight@, e, k);
        let ghost k: nat = if ranked {
            choose|k: nat| ready(elements, locations, self.in_flight@, e, k)
        } else {
            1
        };
        if e.0 >= self.store.elements.len() {
            return Err(Error::UnknownEntity(e));
        }
        if let Some(t) = &self.store.types[e.0] {
            return Ok(t.duplicate());
        }
        if self.in_flight[e.0] {
            assert(!ranked || after_rounds(elements, locations, k)[e.0 as int] is None);
            return Err(Error::CyclicDependency(e));
        }
        if self.store.elements[e.0].uses_unsupported_operator() {
            assert(!ranked || !elements[e.0 as int].is_unsupported());
            return Err(Error::NotImplemented);
        }
        let ghost start = *self;
        let ghost prev = after_rounds(elements, locations, (k - 1) as nat);
        proof {
            if ranked {
                assert(after_rounds(elements, locations, k) == crate::infer_types::step(
                    elements,
                    locations,
                    prev,
                ));
                lemma_known_dependencies(elements[e.0 as int], prev, locations);
                lemma_rounds_extend(elements, locations, (k - 1) as nat, k);
            }
        }
        let ghost owed = spec_infer(
            self.store.elements@[e.0 as int],
            self.store.table(),
            self.store.locations@,
        ) is Some;
        proof {
            lemma_idle_count_mark(self.in_flight@, e.0 as int);
            if owed {
                lemma_known_dependencies(
                    self.store.elements@[e.0 as int],
                    self.store.table(),
                    self.store.locations@,
                );
            }
        }
        self.in_flight.set(e.0, true);
        let deps = dependencies(&self.store.elements[e.0]);
        let mut i: usize = 0;
        while i < deps.len()
            invariant
                self.wf(),
                self.store.elements@ == start.store.elements@,
                self.store.locations@ == start.store.locations@,
                self.in_flight@ == start.in_flight@.update(e.0 as int, true),
                extends(start.store.table(), self.store.table()),
                forall|j: int|
                    0 <= j < start.in_flight.len() && #[trigger] start.in_flight[j]
                        ==> self.store.table()[j] == start.store.table()[j],
                self.store.table()[e.0 as int] is None,
                e.0 < self.store.elements.len(),
                !start.in_flight@[e.0 as int],
                start.wf(),
                start == *old(self),
                deps@ == element_dependencies(start.store.elements@[e.0 as int]),
                owed == (spec_infer(
                    start.store.elements@[e.0 as int],
                    start.store.table(),
                    start.store.locations@,
                ) is Some),
                owed ==> forall|j: int|
                    0 <= j < deps@.len() ==> type_of(start.store.table(), #[trigger] deps@[j]) is Some,
                budget >= 1 + idle_count(self.in_flight@),
                0 <= i <= deps.len(),
                elements == start.store.elements@,
                locations == start.store.locations@,
                prev == after_rounds(elements, locations, (k - 1) as nat),
                ranked ==> all_supported(elements),
                ranked == (all_supported(elements) && exists|k: nat|
                    ready(elements, locations, start.in_flight@, e, k)),
                ranked ==> ready(elements, locations, start.in_flight@, e, k),
                ranked ==> extends(prev, after_rounds(elements, locations, k)),
                ranked ==> forall|j: int|
                    0 <= j < deps@.len() ==> type_of(prev, #[trigger] deps@[j]) is Some,
                ranked ==> forall|j: int|
                    0 <= j < i ==> type_of(self.store.table(), #[trigger] deps@[j]) is Some,
            decreases deps.len() - i,
        {
            let d = deps[i];
            let ghost before = *self;
            proof {
                if ranked {
                    assert(type_of(prev, deps@[i as int]) is Some);
                    if k == 1 {
                        assert(prev[d.0 as int] is None);
                    }
                    let j = lemma_first_round(elements, locations, d.0 as int, (k - 1) as nat);
                    lemma_rounds_extend(elements, locations, j, k);
                    let after_j = after_rounds(elements, locations, j);
                    let after_k = after_rounds(elements, locations, k);
                    assert(extends(after_j, from_scratch(elements, locations)));
                    assert forall|x: int|
                        0 <= x < self.in_flight@.len() && #[trigger] self.in_flight@[x] implies after_j[x]
                        is None by {
                        if x == e.0 {
                            if after_j[x] is Some {
                                lemma_rounds_extend(elements, locations, j, (k - 1) as nat);
                            }
                        } else {
                            assert(start.in_flight@[x]);
                            assert(after_k[x] is None);
                        }
                    }
                    assert(ready(elements, locations, self.in_flight@, d, j));
                    assert(ready(
                        self.store.elements@,
                        self.store.locations@,
                        self.in_flight@,
                        d,
                        j,
                    ));
                    assert(all_supported(self.store.elements@));
                }
            }
            match self.resolve(d, budget - 1) {
                Ok(_) => {},
                Err(err) => {
                    self.in_flight.set(e.0, false);
                    assert(self.in_flight@ =~= start.in_flight@);
                    return Err(err);
                },
            }
            assert(before.in_flight[e.0 as int]);
            assert(ranked ==> type_of(self.store.table(), deps@[i as int]) is Some);
            assert forall|j: int|
                0 <= j < start.in_flight.len() && #[trigger] start.in_flight[j] implies self.store.table()[j]
                == start.store.table()[j] by {
                assert(before.in_flight[j]);
            }
            i = i + 1;
        }
        self.in_flight.set(e.0, false);
        assert(self.in_flight@ =~= start.in_flight@);
        let ghost table = self.store.table();
        proof {
            if owed {
                lemma_infer_monotone(
                    self.store.elements@[e.0 as int],
                    start.store.table(),
                    table,
                    self.store.locations@,
                );
            }
            if ranked {
                let f = from_scratch(elements, locations);
                let el = elements[e.0 as int];
                assert forall|j: int|
                    0 <= j < element_dependencies(el).len() implies type_of(
                    table,
                    #[trigger] element_dependencies(el)[j],
                ) == type_of(prev, element_dependencies(el)[j]) by {
                    let d = deps@[j];
                    assert(type_of(prev, d) is Some);
                    assert(type_of(table, d) is Some);
                }
                lemma_infer_local(el, table, prev, locations);
            }
        }
        match infer_type(&self.store.elements[e.0], &self.store.types, &self.store.locations) {
            Some(t) => {
                let copy = t.duplicate();
                self.store.types.set(e.0, Some(t));
                proof {
                    reveal(consistent);
                    let updated = self.store.table();
                    assert forall|j: int| 0 <= j < updated.len() && (#[trigger] updated[j]) is Some implies updated[j].unwrap().wf() by {
                        if j != e.0 {
                            assert(updated[j] == table[j]);
                        }
                    }
                    lemma_from_scratch_agrees(
                        self.store.elements@,
                        self.store.locations@,
                        table,
                        e.0 as int,
                    );
                    let new_table = self.store.table();
                    assert(new_table =~= table.update(e.0 as int, Some(copy@)));
                    assert(extends(table, new_table));
                    assert forall|j: int|
                        0 <= j < new_table.len() && (#[trigger] new_table[j]) is Some implies spec_infer(
                        self.store.elements@[j],
                        new_table,
                        self.store.locations@,
                    ) == new_table[j] by {
                        lemma_infer_monotone(
                            self.store.elements@[j],
                            table,
                            new_table,
                            self.store.locations@,
                        );
                    }
                }
                Ok(copy)
            },
            None => Err(Error::Unresolved(e)),
        }
    }
}

/// The type of an element, resolving first, through the database, the
/// entities that its rule reads.
pub fn element_type(element: &Element, db: &mut Db) -> (r: Result<Type, Error>)
    requires
        old(db).wf(),
        element.wf(),
    ensures
        final(db).wf(),
        final(db).store.elements@ == old(db).store.elements@,
        final(db).store.locations@ == old(db).store.locations@,
        extends(old(db).store.table(), final(db).store.table()),
        element.is_unsupported() ==> r == Err::<Type, Error>(Error::NotImplemented),
        r is Ok ==> Some(r->Ok_0@) == spec_infer(
            *element,
            final(db).store.table(),
            final(db).store.locations@,
        ),
        r == Err::<Type, Error>(Error::MissingAnnotation) ==> spec_infer(
            *element,
            final(db).store.table(),
            final(db).store.locations@,
        ) is None,
        !element.is_unsupported() && spec_infer(*element, old(db).store.table(), old(db).store.locations@)
            is Some ==> r is Ok,
        final(db).in_flight@ == old(db).in_flight@,
        all_supported(old(db).store.elements@) && (forall|i: int|
            0 <= i < old(db).in_flight.len() ==> !old(db).in_flight[i]) && !element.is_unsupported()
            && spec_infer(
            *element,
            from_scratch(old(db).store.elements@, old(db).store.locations@),
            old(db).store.locations@,
        ) is Some ==> r is Ok,
{
    if element.uses_unsupported_operator() {
        return Err(Error::NotImplemented);
    }
    let deps = dependencies(element);
    let ghost owed = spec_infer(*element, db.store.table(), db.store.locations@) is Some;
    let ghost scratch = from_scratch(db.store.elements@, db.store.locations@);
    let ghost pulled = all_supported(db.store.elements@) && (forall|i: int|
        0 <= i < db.in_flight.len() ==> !db.in_flight[i]) && spec_infer(
        *element,
        scratch,
        db.store.locations@,
    ) is Some;
    proof {
        if owed {
            lemma_known_dependencies(*element, db.store.table(), db.store.locations@);
        }
        if pulled {
            lemma_known_dependencies(*element, scratch, db.store.locations@);
        }
    }
    let mut i: usize = 0;
    while i < deps.len()
        invariant
            deps@ == element_dependencies(*element),
            owed == (spec_infer(*element, old(db).store.table(), old(db).store.locations@) is Some),
            owed ==> forall|j: int|
                0 <= j < deps@.len() ==> type_of(old(db).store.table(), #[trigger] deps@[j]) is Some,
            db.in_flight@ == old(db).in_flight@,
            scratch == from_scratch(db.store.elements@, db.store.locations@),
            pulled == (all_supported(old(db).store.elements@) && (forall|k: int|
                0 <= k < old(db).in_flight.len() ==> !old(db).in_flight[k]) && spec_infer(
                *element,
                scratch,
                old(db).store.locations@,
            ) is Some),
            pulled ==> forall|j: int|
                0 <= j < deps@.len() ==> type_of(scratch, #[trigger] deps@[j]) is Some,
            pulled ==> forall|j: int|
                0 <= j < i ==> type_of(db.store.table(), #[trigger] deps@[j]) is Some,
            db.wf(),
            db.store.elements@ == old(db).store.elements@,
            db.store.locations@ == old(db).store.locations@,
            extends(old(db).store.table(), db.store.table()),
            !element.is_unsupported(),
            0 <= i <= deps.len(),
        decreases deps.len() - i,
    {
        proof {
            if pulled {
                assert(type_of(scratch, deps@[i as int]) is Some);
            }
        }
        match db.ty(deps[i]) {
            Ok(_) => {},
            Err(err) => {
                return Err(err);
            },
        }
        i = i + 1;
    }
    proof {
        if owed {
            lemma_infer_monotone(
                *element,
                old(db).store.table(),
                db.store.table(),
                db.store.locations@,
            );
        }
        if pulled {
            let table = db.store.table();
            assert forall|j: int|
                0 <= j < element_dependencies(*element).len() implies type_of(
                table,
                #[trigger] element_dependencies(*element)[j],
            ) == type_of(scratch, element_dependencies(*element)[j]) by {
                let d = deps@[j];
                assert(type_of(scratch, d) is Some);
                assert(type_of(table, d) is Some);
            }
            lemma_infer_local(*element, table, scratch, db.store.locations@);
        }
    }
    match infer_type(element, &db.store.types, &db.store.locations) {
        Some(t) => Ok(t),
        None => Err(Error::MissingAnnotation),
    }
}

} // verus!
