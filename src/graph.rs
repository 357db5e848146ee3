//! The entity graph: one node per entity, one labelled edge for each
//! reference from an element to another entity.  Renderers draw it; it never
//! influences inference.
use vstd::prelude::*;

use crate::element::{binding_targets, targets_of, Element};
use crate::ir::{Entity, Ident};
use crate::store::Store;

verus! {

/// A node of the graph: an entity.
#[derive(Clone, Copy, Debug, PartialEq, Eq, Structural)]
pub struct Node(pub Entity);

/// A reference from the element of `source` to `target`.
#[derive(Clone, Copy, Debug, PartialEq, Eq, Structural)]
pub struct Edge {
    pub source: Node,
    pub target: Node,
    pub label: Label,
}

/// References that come in numbered series.
#[derive(Clone, Copy, Debug, PartialEq, Eq, Structural)]
pub enum IndexedKind {
    TupleField,
    AppliedParameter,
    ClosureCaptureUsage,
    ClosureParameter,
    ClosureStatement,
}

/// References that carry a name.
#[derive(Clone, Copy, Debug, PartialEq, Eq, Structural)]
pub enum NamedKind {
    RecordField,
    SelectField,
    ClosureCaptureDefinition,
    ModuleDefinition,
}

/// What a reference means to the element that makes it.
#[derive(Clone, Copy, Debug, PartialEq, Eq, Structural)]
pub enum Label {
    Indexed(IndexedKind, usize),
    Named(NamedKind, Ident),
    VariableInitializer,
    AppliedFunction,
    ParameterSignature,
    ClosureSignature,
    ClosureResult,
    UnOperand,
    BiLhs,
    BiRhs,
}

/// How an edge is drawn.
#[derive(Clone, Copy, Debug, PartialEq, Eq, Structural)]
pub enum Style {
    Solid,
    Dotted,
    Dashed,
}

pub open spec fn edge(source: Entity, target: Entity, label: Label) -> Edge {
    Edge { source: Node(source), target: Node(target), label }
}

/// One edge per target, numbered from zero.
pub open spec fn indexed_edges(source: Entity, targets: Seq<Entity>, kind: IndexedKind) -> Seq<Edge> {
    Seq::new(targets.len(), |i: int| edge(source, targets[i], Label::Indexed(kind, i as usize)))
}

/// One edge per binding, labelled with its name.
pub open spec fn named_edges(
    source: Entity,
    bindings: Seq<(Ident, Entity)>,
    kind: NamedKind,
) -> Seq<Edge> {
    Seq::new(bindings.len(), |i: int| edge(source, bindings[i].1, Label::Named(kind, bindings[i].0)))
}

pub open spec fn optional_edge(source: Entity, target: Option<Entity>, label: Label) -> Seq<Edge> {
    match target {
        Some(t) => seq![edge(source, t, label)],
        None => seq![],
    }
}

/// The edges out of one entity, in the order of the element's references.
pub open spec fn element_edges(source: Entity, element: Element) -> Seq<Edge> {
    match element {
        Element::Number(_) | Element::String(_) | Element::Symbol(_) => seq![],
        Element::Tuple(t) => indexed_edges(source, t.fields@, IndexedKind::TupleField),
        Element::Record(r) => named_edges(source, r.fields@, NamedKind::RecordField),
        Element::UnOp(u) => seq![edge(source, u.operand, Label::UnOperand)],
        Element::BiOp(b) => seq![edge(source, b.lhs, Label::BiLhs), edge(source, b.rhs, Label::BiRhs)],
        Element::Variable(v) => seq![edge(source, v.initializer, Label::VariableInitializer)],
        Element::Select(s) => seq![
            edge(source, s.record, Label::Named(NamedKind::SelectField, s.field)),
        ],
        Element::Apply(a) => seq![edge(source, a.function, Label::AppliedFunction)]
            + indexed_edges(source, a.parameters@, IndexedKind::AppliedParameter),
        Element::Parameter(p) => optional_edge(source, p.signature, Label::ParameterSignature),
        Element::Capture(c) => seq![
            edge(source, c.captured, Label::Named(NamedKind::ClosureCaptureDefinition, c.name)),
        ],
        Element::Closure(c) => indexed_edges(
            source,
            binding_targets(c.captures@),
            IndexedKind::ClosureCaptureUsage,
        ) + indexed_edges(source, c.parameters@, IndexedKind::ClosureParameter) + indexed_edges(
            source,
            c.statements@,
            IndexedKind::ClosureStatement,
        ) + optional_edge(source, c.signature, Label::ClosureSignature) + seq![
            edge(source, c.result, Label::ClosureResult),
        ],
        Element::Module(m) => named_edges(source, m.variables@, NamedKind::ModuleDefinition),
    }
}

/// The edges of the first `elements.len()` entities, entity by entity.
pub open spec fn graph_edges(elements: Seq<Element>) -> Seq<Edge>
    decreases elements.len(),
{
    if elements.len() == 0 {
        seq![]
    } else {
        graph_edges(elements.drop_last()) + element_edges(
            Entity((elements.len() - 1) as usize),
            elements.last(),
        )
    }
}

/// How an edge with the given label is drawn: signatures dotted, capture
/// definitions and statements dashed, the rest solid.
pub open spec fn spec_style(label: Label) -> Style {
    match label {
        Label::ParameterSignature | Label::ClosureSignature => Style::Dotted,
        Label::Named(NamedKind::ClosureCaptureDefinition, _) => Style::Dashed,
        Label::Indexed(IndexedKind::ClosureStatement, _) => Style::Dashed,
        _ => Style::Solid,
    }
}

fn push_indexed(edges: &mut Vec<Edge>, source: Entity, targets: &Vec<Entity>, kind: IndexedKind)
    ensures
        final(edges)@ == old(edges)@ + indexed_edges(source, targets@, kind),
{
    let ghost start = edges@;
    let mut i: usize = 0;
    while i < targets.len()
        invariant
            0 <= i <= targets.len(),
            edges@ == start + indexed_edges(source, targets@.subrange(0, i as int), kind),
        decreases targets.len() - i,
    {
        edges.push(
            Edge {
                source: Node(source),
                target: Node(targets[i]),
                label: Label::Indexed(kind, i),
            },
        );
        i = i + 1;
        assert(edges@ =~= start + indexed_edges(source, targets@.subrange(0, i as int), kind));
    }
    assert(targets@.subrange(0, targets.len() as int) =~= targets@);
}

fn push_named(edges: &mut Vec<Edge>, source: Entity, bindings: &Vec<(Ident, Entity)>, kind: NamedKind)
    ensures
        final(edges)@ == old(edges)@ + named_edges(source, bindings@, kind),
{
    let ghost start = edges@;
    let mut i: usize = 0;
    while i < bindings.len()
        invariant
            0 <= i <= bindings.len(),
            edges@ == start + named_edges(source, bindings@.subrange(0, i as int), kind),
        decreases bindings.len() - i,
    {
        edges.push(
            Edge {
                source: Node(source),
                target: Node(bindings[i].1),
                label: Label::Named(kind, bindings[i].0),
            },
        );
        i = i + 1;
        assert(edges@ =~= start + named_edges(source, bindings@.subrange(0, i as int), kind));
    }
    assert(bindings@.subrange(0, bindings.len() as int) =~= bindings@);
}

fn push_optional(edges: &mut Vec<Edge>, source: Entity, target: Option<Entity>, label: Label)
    ensures
        final(edges)@ == old(edges)@ + optional_edge(source, target, label),
{
    if let Some(t) = target {
        edges.push(Edge { source: Node(source), target: Node(t), label });
    }
    assert(edges@ =~= old(edges)@ + optional_edge(source, target, label));
}

/// Appends the edges out of one entity.
pub fn push_element_edges(edges: &mut Vec<Edge>, source: Entity, element: &Element)
    ensures
        final(edges)@ == old(edges)@ + element_edges(source, *element),
{
    let ghost start = edges@;
    match element {
        Element::Number(_) | Element::String(_) | Element::Symbol(_) => {},
        Element::Tuple(t) => push_indexed(edges, source, &t.fields, IndexedKind::TupleField),
        Element::Record(r) => push_named(edges, source, &r.fields, NamedKind::RecordField),
        Element::UnOp(u) => {
            edges.push(Edge { source: Node(source), target: Node(u.operand), label: Label::UnOperand });
        },
        Element::BiOp(b) => {
            edges.push(Edge { source: Node(source), target: Node(b.lhs), label: Label::BiLhs });
            edges.push(Edge { source: Node(source), target: Node(b.rhs), label: Label::BiRhs });
        },
        Element::Variable(v) => {
            edges.push(
                Edge {
                    source: Node(source),
                    target: Node(v.initializer),
                    label: Label::VariableInitializer,
                },
            );
        },
        Element::Select(s) => {
            edges.push(
                Edge {
                    source: Node(source),
                    target: Node(s.record),
                    label: Label::Named(NamedKind::SelectField, s.field),
                },
            );
        },
        Element::Apply(a) => {
            edges.push(
                Edge { source: Node(source), target: Node(a.function), label: Label::AppliedFunction },
            );
            push_indexed(edges, source, &a.parameters, IndexedKind::AppliedParameter);
        },
        Element::Parameter(p) => push_optional(edges, source, p.signature, Label::ParameterSignature),
        Element::Capture(c) => {
            edges.push(
                Edge {
                    source: Node(source),
                    target: Node(c.captured),
                    label: Label::Named(NamedKind::ClosureCaptureDefinition, c.name),
                },
            );
        },
        Element::Closure(c) => {
            let captured = targets_of(&c.captures);
            push_indexed(edges, source, &captured, IndexedKind::ClosureCaptureUsage);
            push_indexed(edges, source, &c.parameters, IndexedKind::ClosureParameter);
            push_indexed(edges, source, &c.statements, IndexedKind::ClosureStatement);
            push_optional(edges, source, c.signature, Label::ClosureSignature);
            edges.push(
                Edge { source: Node(source), target: Node(c.result), label: Label::ClosureResult },
            );
        },
        Element::Module(m) => push_named(edges, source, &m.variables, NamedKind::ModuleDefinition),
    }
    assert(edges@ =~= start + element_edges(source, *element));
}

/// A view of an entity store as a graph.
pub struct Graph<'a> {
    pub store: &'a Store,
}

impl<'a> Graph<'a> {
    /// The graph of the given store.
    pub fn new(store: &'a Store) -> (r: Graph<'a>)
        ensures
            r.store == store,
    {
        Graph { store }
    }

    /// One node per entity, in order.
    pub fn nodes(&self) -> (r: Vec<Node>)
        ensures
            r@.len() == self.store.elements@.len(),
            forall|i: int| 0 <= i < r@.len() ==> #[trigger] r@[i] == Node(Entity(i as usize)),
    {
        let mut r: Vec<Node> = Vec::new();
        let mut i: usize = 0;
        while i < self.store.elements.len()
            invariant
                0 <= i <= self.store.elements.len(),
                r@.len() == i,
                forall|j: int| 0 <= j < i ==> #[trigger] r@[j] == Node(Entity(j as usize)),
            decreases self.store.elements.len() - i,
        {
            r.push(Node(Entity(i)));
            i = i + 1;
        }
        r
    }

    /// Every reference from an element to an entity, entity by entity.
    pub fn edges(&self) -> (r: Vec<Edge>)
        ensures
            r@ == graph_edges(self.store.elements@),
    {
        let mut r: Vec<Edge> = Vec::new();
        let mut i: usize = 0;
        while i < self.store.elements.len()
            invariant
                0 <= i <= self.store.elements.len(),
                r@ == graph_edges(self.store.elements@.subrange(0, i as int)),
            decreases self.store.elements.len() - i,
        {
            let ghost before = self.store.elements@.subrange(0, i as int);
            push_element_edges(&mut r, Entity(i), &self.store.elements[i]);
            i = i + 1;
            let ghost after = self.store.elements@.subrange(0, i as int);
            assert(after.drop_last() =~= before);
        }
        assert(self.store.elements@.subrange(0, self.store.elements.len() as int)
            =~= self.store.elements@);
        r
    }

    /// The node an edge comes from.
    pub fn source(&self, edge: &Edge) -> (r: Node)
        ensures
            r == edge.source,
    {
        edge.source
    }

    /// The node an edge goes to.
    pub fn target(&self, edge: &Edge) -> (r: Node)
        ensures
            r == edge.target,
    {
        edge.target
    }

    /// How an edge is drawn.
    pub fn edge_style(&self, edge: &Edge) -> (r: Style)
        ensures
            r == spec_style(edge.label),
    {
        match edge.label {
            Label::ParameterSignature | Label::ClosureSignature => Style::Dotted,
            Label::Named(NamedKind::ClosureCaptureDefinition, _) => Style::Dashed,
            Label::Indexed(IndexedKind::ClosureStatement, _) => Style::Dashed,
            _ => Style::Solid,
        }
    }
}

} // verus!
