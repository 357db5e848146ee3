//! The fixpoint strategy: rounds over all entities without a type, each round
//! reading only the types committed by the rounds before it, until a round
//! commits nothing.
use vstd::prelude::*;

use crate::element::Element;
use crate::error::Error;
use crate::infer::{
    all_known, extends, infer_type, lemma_infer_monotone, lemma_infer_wf, option_view, spec_infer,
    table_view, table_wf, type_of, types_of,
};
use crate::ir::{Entity, Location};
use crate::store::Store;
use crate::ty::{Ty, Type};

verus! {

/// One round: every entity without a type gets what its rule gives from the
/// types known before the round; known types stay.
pub open spec fn step(
    elements: Seq<Element>,
    locations: Seq<Location>,
    types: Seq<Option<Ty>>,
) -> Seq<Option<Ty>> {
    Seq::new(
        types.len(),
        |i: int|
            if types[i] is Some {
                types[i]
            } else {
                spec_infer(elements[i], types, locations)
            },
    )
}

/// Rounds until one changes nothing, at most `rounds` of them.
pub open spec fn settle(
    elements: Seq<Element>,
    locations: Seq<Location>,
    types: Seq<Option<Ty>>,
    rounds: nat,
) -> Seq<Option<Ty>>
    decreases rounds,
{
    if rounds == 0 {
        types
    } else {
        let next = step(elements, locations, types);
        if next == types {
            types
        } else {
            settle(elements, locations, next, (rounds - 1) as nat)
        }
    }
}

/// The result of the fixpoint strategy on a table of known types: one more
/// round than there are entities is always enough.
pub open spec fn fixpoint(
    elements: Seq<Element>,
    locations: Seq<Location>,
    types: Seq<Option<Ty>>,
) -> Seq<Option<Ty>> {
    settle(elements, locations, types, types.len() + 1)
}

/// The number of entities without a type.
pub open spec fn unresolved(types: Seq<Option<Ty>>) -> nat
    decreases types.len(),
{
    if types.len() == 0 {
        0
    } else {
        unresolved(types.drop_last()) + if types.last() is None {
            1nat
        } else {
            0nat
        }
    }
}

/// Whether no element applies an operator without a typing rule.
pub open spec fn all_supported(elements: Seq<Element>) -> bool {
    forall|i: int| 0 <= i < elements.len() ==> !(#[trigger] elements[i]).is_unsupported()
}

pub proof fn lemma_unresolved_bound(types: Seq<Option<Ty>>)
    ensures
        unresolved(types) <= types.len(),
    decreases types.len(),
{
    if types.len() > 0 {
        lemma_unresolved_bound(types.drop_last());
    }
}

/// A table that extends another has no more unknown types, and strictly
/// fewer if the two differ.
proof fn lemma_extends_unresolved(a: Seq<Option<Ty>>, b: Seq<Option<Ty>>)
    requires
        extends(a, b),
    ensures
        unresolved(b) <= unresolved(a),
        a != b ==> unresolved(b) < unresolved(a),
    decreases a.len(),
{
    if a.len() > 0 {
        let a0 = a.drop_last();
        let b0 = b.drop_last();
        assert(extends(a0, b0)) by {
            assert forall|i: int| 0 <= i < a0.len() && (#[trigger] a0[i]) is Some implies b0[i]
                == a0[i] by {
                assert(a[i] == a0[i]);
            }
        }
        lemma_extends_unresolved(a0, b0);
        if a != b {
            if a0 == b0 {
                assert(a.last() != b.last()) by {
                    if a.last() == b.last() {
                        assert(a =~= b) by {
                            assert forall|i: int| 0 <= i < a.len() implies a[i] == b[i] by {
                                if i < a.len() - 1 {
                                    assert(a0[i] == b0[i]);
                                }
                            }
                        }
                    }
                }
            }
        }
    } else {
        assert(a =~= b);
    }
}

/// A round keeps the known types well formed.
pub proof fn lemma_step_wf(elements: Seq<Element>, locations: Seq<Location>, types: Seq<Option<Ty>>)
    requires
        table_wf(types),
        elements.len() == types.len(),
        forall|i: int| 0 <= i < elements.len() ==> (#[trigger] elements[i]).wf(),
    ensures
        table_wf(step(elements, locations, types)),
{
    let next = step(elements, locations, types);
    assert forall|i: int| 0 <= i < next.len() && (#[trigger] next[i]) is Some implies next[i].unwrap().wf() by {
        if types[i] is None {
            lemma_infer_wf(elements[i], types, locations);
        }
    }
}

proof fn lemma_step_extends(elements: Seq<Element>, locations: Seq<Location>, types: Seq<Option<Ty>>)
    ensures
        extends(types, step(elements, locations, types)),
{
}

/// The fixpoint strategy keeps every type known before it ran.
pub proof fn lemma_settle_extends(
    elements: Seq<Element>,
    locations: Seq<Location>,
    types: Seq<Option<Ty>>,
    rounds: nat,
)
    ensures
        extends(types, settle(elements, locations, types, rounds)),
    decreases rounds,
{
    if rounds > 0 {
        let next = step(elements, locations, types);
        if next != types {
            lemma_step_extends(elements, locations, types);
            lemma_settle_extends(elements, locations, next, (rounds - 1) as nat);
            let last = settle(elements, locations, next, (rounds - 1) as nat);
            assert forall|i: int| 0 <= i < types.len() && (#[trigger] types[i]) is Some implies last[i]
                == types[i] by {
                assert(next[i] == types[i]);
            }
        }
    }
}

/// With more rounds allowed than there are unknown types, the rounds stop at
/// a table that a further round leaves as it is.
pub proof fn lemma_settle_is_fixed(
    elements: Seq<Element>,
    locations: Seq<Location>,
    types: Seq<Option<Ty>>,
    rounds: nat,
)
    requires
        rounds > unresolved(types),
    ensures
        step(elements, locations, settle(elements, locations, types, rounds)) == settle(
            elements,
            locations,
            types,
            rounds,
        ),
    decreases rounds,
{
    let next = step(elements, locations, types);
    if next != types {
        lemma_step_extends(elements, locations, types);
        lemma_extends_unresolved(types, next);
        lemma_settle_is_fixed(elements, locations, next, (rounds - 1) as nat);
    }
}

/// Running inference again on its own result changes nothing: every type
/// that the fixpoint strategy found is found again, and no other.
pub proof fn lemma_inference_idempotent(
    elements: Seq<Element>,
    locations: Seq<Location>,
    types: Seq<Option<Ty>>,
)
    ensures
        fixpoint(elements, locations, fixpoint(elements, locations, types)) == fixpoint(
            elements,
            locations,
            types,
        ),
{
    let first = fixpoint(elements, locations, types);
    lemma_unresolved_bound(types);
    lemma_settle_is_fixed(elements, locations, types, types.len() + 1);
    lemma_settle_extends(elements, locations, types, types.len() + 1);
    assert(first.len() == types.len());
}

/// Every type that the rounds found for an entity that had none is what the
/// entity's rule gives from the table they stop at.
pub proof fn lemma_settle_consistent(
    elements: Seq<Element>,
    locations: Seq<Location>,
    types: Seq<Option<Ty>>,
    rounds: nat,
)
    ensures
        forall|i: int|
            0 <= i < types.len() && types[i] is None && (#[trigger] settle(
                elements,
                locations,
                types,
                rounds,
            )[i]) is Some ==> settle(elements, locations, types, rounds)[i] == spec_infer(
                elements[i],
                settle(elements, locations, types, rounds),
                locations,
            ),
    decreases rounds,
{
    if rounds > 0 {
        let next = step(elements, locations, types);
        if next != types {
            let last = settle(elements, locations, next, (rounds - 1) as nat);
            lemma_settle_consistent(elements, locations, next, (rounds - 1) as nat);
            lemma_settle_extends(elements, locations, next, (rounds - 1) as nat);
            assert forall|i: int|
                0 <= i < types.len() && types[i] is None && (#[trigger] last[i]) is Some implies last[i]
                == spec_infer(elements[i], last, locations) by {
                if next[i] is Some {
                    lemma_step_extends(elements, locations, types);
                    assert(extends(types, last)) by {
                        assert forall|j: int| 0 <= j < types.len() && (#[trigger] types[j]) is Some implies last[j]
                            == types[j] by {
                            assert(next[j] == types[j]);
                        }
                    }
                    lemma_infer_monotone(elements[i], types, last, locations);
                }
            }
        }
    }
}

/// A table of `n` entities in which no type is known.
pub open spec fn unknown_table(n: nat) -> Seq<Option<Ty>> {
    Seq::new(n, |i: int| None)
}

/// What the fixpoint strategy finds for the given elements when no type is
/// known beforehand.
pub open spec fn from_scratch(elements: Seq<Element>, locations: Seq<Location>) -> Seq<
    Option<Ty>,
> {
    fixpoint(elements, locations, unknown_table(elements.len()))
}

/// A type that a rule gives from a table that the fixpoint strategy's result
/// from scratch extends is the type that result holds for the entity.
pub proof fn lemma_from_scratch_agrees(
    elements: Seq<Element>,
    locations: Seq<Location>,
    types: Seq<Option<Ty>>,
    e: int,
)
    requires
        0 <= e < elements.len(),
        extends(types, from_scratch(elements, locations)),
        spec_infer(elements[e], types, locations) is Some,
    ensures
        from_scratch(elements, locations)[e] == spec_infer(elements[e], types, locations),
{
    let n = elements.len();
    let unknown = unknown_table(n);
    let last = from_scratch(elements, locations);
    lemma_unresolved_bound(unknown);
    lemma_settle_is_fixed(elements, locations, unknown, n + 1);
    lemma_settle_extends(elements, locations, unknown, n + 1);
    lemma_settle_consistent(elements, locations, unknown, n + 1);
    lemma_infer_monotone(elements[e], types, last, locations);
    assert(step(elements, locations, last)[e] == last[e]);
    assert(unknown[e] is None);
}

/// The table after `k` rounds from scratch.
pub open spec fn after_rounds(elements: Seq<Element>, locations: Seq<Location>, k: nat) -> Seq<
    Option<Ty>,
>
    decreases k,
{
    if k == 0 {
        unknown_table(elements.len())
    } else {
        step(elements, locations, after_rounds(elements, locations, (k - 1) as nat))
    }
}

proof fn lemma_extends_trans(a: Seq<Option<Ty>>, b: Seq<Option<Ty>>, c: Seq<Option<Ty>>)
    requires
        extends(a, b),
        extends(b, c),
    ensures
        extends(a, c),
{
}

proof fn lemma_rounds_len(elements: Seq<Element>, locations: Seq<Location>, k: nat)
    ensures
        after_rounds(elements, locations, k).len() == elements.len(),
    decreases k,
{
    if k > 0 {
        lemma_rounds_len(elements, locations, (k - 1) as nat);
    }
}

/// Later rounds keep every type that earlier rounds found.
pub proof fn lemma_rounds_extend(elements: Seq<Element>, locations: Seq<Location>, a: nat, b: nat)
    requires
        a <= b,
    ensures
        extends(after_rounds(elements, locations, a), after_rounds(elements, locations, b)),
        after_rounds(elements, locations, b).len() == elements.len(),
    decreases b,
{
    if a == b {
        lemma_rounds_len(elements, locations, b);
    } else {
        lemma_rounds_extend(elements, locations, a, (b - 1) as nat);
        lemma_step_extends(elements, locations, after_rounds(elements, locations, (b - 1) as nat));
        lemma_extends_trans(
            after_rounds(elements, locations, a),
            after_rounds(elements, locations, (b - 1) as nat),
            after_rounds(elements, locations, b),
        );
    }
}

/// Rounds run from a table reached after some rounds stop at a table reached
/// after more rounds.
pub proof fn lemma_settle_is_after(
    elements: Seq<Element>,
    locations: Seq<Location>,
    j: nat,
    rounds: nat,
) -> (m: nat)
    ensures
        j <= m,
        settle(elements, locations, after_rounds(elements, locations, j), rounds) == after_rounds(
            elements,
            locations,
            m,
        ),
    decreases rounds,
{
    if rounds == 0 {
        j
    } else {
        let t = after_rounds(elements, locations, j);
        assert(after_rounds(elements, locations, j + 1) == step(elements, locations, t));
        if step(elements, locations, t) == t {
            j
        } else {
            lemma_settle_is_after(elements, locations, j + 1, (rounds - 1) as nat)
        }
    }
}

/// The result from scratch is the table after some number of rounds.
pub proof fn lemma_from_scratch_is_after(elements: Seq<Element>, locations: Seq<Location>) -> (m: nat)
    ensures
        from_scratch(elements, locations) == after_rounds(elements, locations, m),
{
    assert(after_rounds(elements, locations, 0) == unknown_table(elements.len()));
    lemma_settle_is_after(elements, locations, 0, elements.len() + 1)
}

/// The first round in which an entity got its type.
pub proof fn lemma_first_round(
    elements: Seq<Element>,
    locations: Seq<Location>,
    e: int,
    k: nat,
) -> (j: nat)
    requires
        0 <= e < elements.len(),
        after_rounds(elements, locations, k)[e] is Some,
    ensures
        1 <= j <= k,
        after_rounds(elements, locations, j)[e] is Some,
        after_rounds(elements, locations, (j - 1) as nat)[e] is None,
    decreases k,
{
    if k == 0 {
        assert(after_rounds(elements, locations, 0)[e] is None);
        0
    } else if after_rounds(elements, locations, (k - 1) as nat)[e] is None {
        k
    } else {
        lemma_first_round(elements, locations, e, (k - 1) as nat)
    }
}

/// A closure that had no type, and whose signature type and parameter types
/// the fixpoint strategy found, gets its function type, whatever its body:
/// closures that call each other resolve without either body being resolved
/// first.
pub proof fn lemma_fixpoint_resolves_closure(
    elements: Seq<Element>,
    locations: Seq<Location>,
    types: Seq<Option<Ty>>,
    e: int,
)
    requires
        0 <= e < types.len(),
        elements.len() == types.len(),
        types[e] is None,
        elements[e] is Closure,
        elements[e]->Closure_0.signature is Some,
        type_of(
            fixpoint(elements, locations, types),
            elements[e]->Closure_0.signature.unwrap(),
        ) is Some,
        all_known(fixpoint(elements, locations, types), elements[e]->Closure_0.parameters@),
    ensures
        fixpoint(elements, locations, types)[e] == Some(
            Ty::Function(
                types_of(fixpoint(elements, locations, types), elements[e]->Closure_0.parameters@),
                Box::new(
                    type_of(
                        fixpoint(elements, locations, types),
                        elements[e]->Closure_0.signature.unwrap(),
                    ).unwrap(),
                ),
            ),
        ),
{
    let last = fixpoint(elements, locations, types);
    lemma_unresolved_bound(types);
    lemma_settle_is_fixed(elements, locations, types, types.len() + 1);
    lemma_settle_extends(elements, locations, types, types.len() + 1);
    lemma_settle_consistent(elements, locations, types, types.len() + 1);
    let next = step(elements, locations, last);
    assert(next[e] == last[e]);
    assert(last[e] is Some);
}

/// What the fixpoint strategy reports while it runs.
#[derive(Clone, Copy, Debug, PartialEq, Eq, Structural)]
pub enum Event {
    /// The entity got a type in the current round.
    Inferred(Entity),
    /// A round committed the types it found.
    RoundCommitted,
}

/// Receives the events of an inference run.
pub trait Observer {
    fn event(&mut self, event: Event);
}

/// An observer that ignores every event.
pub struct Silent;

impl Observer for Silent {
    fn event(&mut self, _event: Event) {
    }
}

/// The fixpoint inference system.
pub struct InferTypesSystem;

impl InferTypesSystem {
    /// One round: the types known before it, and what the rules give for the
    /// entities without one.  Also tells whether a new type was found.
    fn round<O: Observer>(&self, store: &Store, observer: &mut O) -> (r: (Vec<Option<Type>>, bool))
        requires
            store.wf(),
            all_supported(store.elements@),
        ensures
            table_view(r.0@) == step(store.elements@, store.locations@, store.table()),
            r.1 == (step(store.elements@, store.locations@, store.table()) != store.table()),
    {
        let ghost next_spec = step(store.elements@, store.locations@, store.table());
        let mut next: Vec<Option<Type>> = Vec::new();
        let mut changed = false;
        let ghost mut witness: int = 0;
        let mut i: usize = 0;
        while i < store.types.len()
            invariant
                store.wf(),
                all_supported(store.elements@),
                next_spec == step(store.elements@, store.locations@, store.table()),
                0 <= i <= store.types.len(),
                next.len() == i,
                forall|j: int| 0 <= j < i ==> option_view(#[trigger] next@[j]) == next_spec[j],
                !changed ==> forall|j: int| 0 <= j < i ==> next_spec[j] == store.table()[j],
                changed ==> 0 <= witness < i && next_spec[witness] != store.table()[witness],
            decreases store.types.len() - i,
        {
            match &store.types[i] {
                Some(t) => {
                    next.push(Some(t.duplicate()));
                },
                None => {
                    assert(!store.elements@[i as int].is_unsupported());
                    let t = infer_type(&store.elements[i], &store.types, &store.locations);
                    if t.is_some() {
                        changed = true;
                        observer.event(Event::Inferred(Entity(i)));
                        proof {
                            witness = i as int;
                        }
                    }
                    next.push(t);
                },
            }
            i = i + 1;
        }
        assert(table_view(next@) =~= next_spec);
        if !changed {
            assert(next_spec =~= store.table());
        } else {
            assert(next_spec[witness] != store.table()[witness]);
        }
        (next, changed)
    }

    /// Infers the type of every entity that it can, as `run_observed` does,
    /// reporting to no one.  Types already known
    /// stay.  Fails with `NotImplemented` before any round if an element
    /// applies an operator without a typing rule, and with `Unresolved` if
    /// some entity still has no type once the rounds stop.
    pub fn run(&mut self, store: &mut Store) -> (r: Result<(), Error>)
        requires
            old(store).wf(),
        ensures
            final(store).wf(),
            final(store).elements@ == old(store).elements@,
            final(store).locations@ == old(store).locations@,
            !all_supported(old(store).elements@) ==> r == Err::<(), Error>(Error::NotImplemented)
                && final(store).table() == old(store).table(),
            all_supported(old(store).elements@) ==> {
                &&& final(store).table() == fixpoint(
                    old(store).elements@,
                    old(store).locations@,
                    old(store).table(),
                )
                &&& (r is Ok <==> forall|i: int|
                    0 <= i < final(store).types@.len() ==> (#[trigger] final(store).types@[i]) is Some)
                &&& r is Err ==> r->Err_0 is Unresolved
                    && r->Err_0->Unresolved_0.0 < final(store).types@.len()
                    && final(store).types@[r->Err_0->Unresolved_0.0 as int] is None
            },
            forall|i: int|
                0 <= i < old(store).types@.len() && (#[trigger] old(store).table()[i]) is Some
                    ==> final(store).table()[i] == old(store).table()[i],
    {
        self.run_observed(store, &mut Silent)
    }

    /// Infers the type of every entity that it can, reporting each type found
    /// and each round to `observer`.  Types already known
    /// stay.  Fails with `NotImplemented` before any round if an element
    /// applies an operator without a typing rule, and with `Unresolved` if
    /// some entity still has no type once the rounds stop.
    pub fn run_observed<O: Observer>(&mut self, store: &mut Store, observer: &mut O) -> (r: Result<
        (),
        Error,
    >)
        requires
            old(store).wf(),
        ensures
            final(store).wf(),
            final(store).elements@ == old(store).elements@,
            final(store).locations@ == old(store).locations@,
            !all_supported(old(store).elements@) ==> r == Err::<(), Error>(Error::NotImplemented)
                && final(store).table() == old(store).table(),
            all_supported(old(store).elements@) ==> {
                &&& final(store).table() == fixpoint(
                    old(store).elements@,
                    old(store).locations@,
                    old(store).table(),
                )
                &&& (r is Ok <==> forall|i: int|
                    0 <= i < final(store).types@.len() ==> (#[trigger] final(store).types@[i]) is Some)
                &&& r is Err ==> r->Err_0 is Unresolved
                    && r->Err_0->Unresolved_0.0 < final(store).types@.len()
                    && final(store).types@[r->Err_0->Unresolved_0.0 as int] is None
            },
            forall|i: int|
                0 <= i < old(store).types@.len() && (#[trigger] old(store).table()[i]) is Some
                    ==> final(store).table()[i] == old(store).table()[i],
    {
        let mut k: usize = 0;
        while k < store.elements.len()
            invariant
                store.wf(),
                *store == *old(store),
                0 <= k <= store.elements.len(),
                forall|j: int| 0 <= j < k ==> !(#[trigger] store.elements@[j]).is_unsupported(),
            decreases store.elements.len() - k,
        {
            if store.elements[k].uses_unsupported_operator() {
                return Err(Error::NotImplemented);
            }
            k = k + 1;
        }
        let ghost elements = store.elements@;
        let ghost locations = store.locations@;
        let ghost init = store.table();
        let ghost mut rounds: nat = (init.len() + 1) as nat;
        proof {
            lemma_unresolved_bound(init);
        }
        loop
            invariant
                store.wf(),
                all_supported(store.elements@),
                store.elements@ == elements,
                store.locations@ == locations,
                store.table().len() == init.len(),
                rounds > unresolved(store.table()),
                settle(elements, locations, store.table(), rounds) == fixpoint(
                    elements,
                    locations,
                    init,
                ),
            ensures
                store.wf(),
                store.elements@ == elements,
                store.locations@ == locations,
                store.table() == fixpoint(elements, locations, init),
            decreases unresolved(store.table()),
        {
            let (next, changed) = self.round(store, observer);
            let ghost current = store.table();
            if !changed {
                assert(settle(elements, locations, current, rounds) == current);
                break;
            }
            proof {
                lemma_step_wf(elements, locations, current);
                lemma_step_extends(elements, locations, current);
                lemma_extends_unresolved(current, table_view(next@));
                rounds = (rounds - 1) as nat;
            }
            store.types = next;
            observer.event(Event::RoundCommitted);
        }
        proof {
            lemma_settle_extends(elements, locations, init, (init.len() + 1) as nat);
        }
        let mut i: usize = 0;
        while i < store.types.len()
            invariant
                store.wf(),
                store.elements@ == elements,
                store.locations@ == locations,
                store.table() == fixpoint(elements, locations, init),
                extends(init, store.table()),
                elements == old(store).elements@,
                locations == old(store).locations@,
                init == old(store).table(),
                all_supported(elements),
                0 <= i <= store.types.len(),
                forall|j: int| 0 <= j < i ==> (#[trigger] store.types@[j]) is Some,
            decreases store.types.len() - i,
        {
            if store.types[i].is_none() {
                return Err(Error::Unresolved(Entity(i)));
            }
            i = i + 1;
        }
        Ok(())
    }
}

} // verus!
