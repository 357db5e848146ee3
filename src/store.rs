//! The entity store: an arena of entities with parallel component tables.
use vstd::prelude::*;

use crate::element::Element;
use crate::infer::{location_of, table_view, table_wf, type_of};
use crate::ir::{Entity, Ident, Location};
use crate::ty::{Ty, Type};

verus! {

/// Entities are indices into the tables: entity `i` has the element
/// `elements[i]`, the location `locations[i]`, optionally the scope name
/// `symbols[i]` and, once inferred, the type `types[i]`.
pub struct Store {
    pub elements: Vec<Element>,
    pub locations: Vec<Location>,
    pub symbols: Vec<Option<Ident>>,
    pub types: Vec<Option<Type>>,
}

impl Store {
    /// The three tables have one entry per entity, every element's name lists
    /// are in increasing order, and every known type is well formed.
    pub open spec fn wf(&self) -> bool {
        &&& self.elements.len() == self.locations.len()
        &&& self.elements.len() == self.types.len()
        &&& self.elements.len() == self.symbols.len()
        &&& forall|i: int| 0 <= i < self.elements.len() ==> (#[trigger] self.elements[i]).wf()
        &&& table_wf(self.table())
    }

    /// The known types, as a table of mathematical types.
    pub open spec fn table(&self) -> Seq<Option<Ty>> {
        table_view(self.types@)
    }

    /// An empty store.
    pub fn new() -> (r: Store)
        ensures
            r.wf(),
            r.elements@.len() == 0,
    {
        Store { elements: Vec::new(), locations: Vec::new(), symbols: Vec::new(), types: Vec::new() }
    }

    /// The number of entities.
    pub fn len(&self) -> (r: usize)
        requires
            self.wf(),
        ensures
            r == self.elements@.len(),
    {
        self.elements.len()
    }

    /// Creates an entity with the given element and location, and no type
    /// yet.
    pub fn add(&mut self, element: Element, location: Location) -> (e: Entity)
        requires
            old(self).wf(),
            element.wf(),
        ensures
            final(self).wf(),
            e.0 == old(self).elements@.len(),
            final(self).elements@ == old(self).elements@.push(element),
            final(self).locations@ == old(self).locations@.push(location),
            final(self).symbols@ == old(self).symbols@.push(None),
            final(self).types@ == old(self).types@.push(None),
    {
        let e = Entity(self.elements.len());
        self.elements.push(element);
        self.locations.push(location);
        self.symbols.push(None);
        self.types.push(None);
        proof {
            let table = self.table();
            assert forall|i: int| 0 <= i < table.len() && (#[trigger] table[i]) is Some implies table[i].unwrap().wf() by {
                assert(old(self).table()[i] == table[i]);
            }
        }
        e
    }

    /// The element of an entity.
    pub fn element(&self, e: Entity) -> (r: Option<&Element>)
        ensures
            match r {
                Some(el) => e.0 < self.elements@.len() && *el == self.elements@[e.0 as int],
                None => e.0 >= self.elements@.len(),
            },
    {
        if e.0 < self.elements.len() {
            Some(&self.elements[e.0])
        } else {
            None
        }
    }

    /// Names the entity with the scope name `symbol`; entities outside the
    /// store are left alone.
    pub fn set_symbol(&mut self, e: Entity, symbol: Ident)
        requires
            old(self).wf(),
        ensures
            final(self).wf(),
            final(self).elements@ == old(self).elements@,
            final(self).locations@ == old(self).locations@,
            final(self).types@ == old(self).types@,
            e.0 < old(self).symbols@.len() ==> final(self).symbols@ == old(self).symbols@.update(
                e.0 as int,
                Some(symbol),
            ),
            e.0 >= old(self).symbols@.len() ==> final(self).symbols@ == old(self).symbols@,
    {
        if e.0 < self.symbols.len() {
            self.symbols.set(e.0, Some(symbol));
        }
    }

    /// The scope name of an entity, if it has one.
    pub fn symbol(&self, e: Entity) -> (r: Option<Ident>)
        ensures
            r == (if e.0 < self.symbols@.len() {
                self.symbols@[e.0 as int]
            } else {
                None
            }),
    {
        if e.0 < self.symbols.len() {
            self.symbols[e.0]
        } else {
            None
        }
    }

    /// The location that anchors the entity's diagnostics.
    pub fn location(&self, e: Entity) -> (r: Location)
        ensures
            r == location_of(self.locations@, e),
    {
        crate::infer::location(&self.locations, e)
    }

    /// The type of an entity, or `None` while it is not known.
    pub fn ty(&self, e: Entity) -> (r: Option<&Type>)
        ensures
            match r {
                Some(t) => type_of(self.table(), e) == Some(t@),
                None => type_of(self.table(), e) is None,
            },
    {
        crate::infer::lookup(&self.types, e)
    }

    /// The entities whose type is a conflict, in increasing order.
    pub fn conflicts(&self) -> (r: Vec<Entity>)
        ensures
            forall|e: Entity|
                #[trigger] r@.contains(e) <==> (e.0 < self.types@.len() && type_of(self.table(), e)
                    matches Some(Ty::Conflict(..))),
            forall|i: int, j: int| 0 <= i < j < r@.len() ==> r@[i].0 < r@[j].0,
    {
        let mut r: Vec<Entity> = Vec::new();
        let mut i: usize = 0;
        while i < self.types.len()
            invariant
                0 <= i <= self.types.len(),
                forall|e: Entity|
                    #[trigger] r@.contains(e) <==> (e.0 < i && type_of(self.table(), e) matches Some(
                        Ty::Conflict(..),
                    )),
                forall|a: int, b: int| 0 <= a < b < r@.len() ==> r@[a].0 < r@[b].0,
                forall|a: int| 0 <= a < r@.len() ==> r@[a].0 < i,
            decreases self.types.len() - i,
        {
            if let Some(Type::Conflict(_)) = &self.types[i] {
                let ghost before = r@;
                r.push(Entity(i));
                proof {
                    assert forall|e: Entity|
                        #[trigger] r@.contains(e) <==> (e.0 < i + 1 && type_of(self.table(), e)
                            matches Some(Ty::Conflict(..))) by {
                        if e == Entity(i) {
                            assert(r@[r@.len() - 1] == e);
                        }
                        if r@.contains(e) && e != Entity(i) {
                            let k = choose|k: int| 0 <= k < r@.len() && r@[k] == e;
                            assert(before[k] == e);
                        }
                        if before.contains(e) {
                            let k = choose|k: int| 0 <= k < before.len() && before[k] == e;
                            assert(r@[k] == e);
                        }
                    }
                }
            } else {
                proof {
                    assert forall|e: Entity|
                        #[trigger] r@.contains(e) <==> (e.0 < i + 1 && type_of(self.table(), e)
                            matches Some(Ty::Conflict(..))) by {
                        if e.0 == i {
                            if r@.contains(e) {
                                let k = choose|k: int| 0 <= k < r@.len() && r@[k] == e;
                            }
                        }
                    }
                }
            }
            i = i + 1;
        }
        r
    }
}

} // verus!
