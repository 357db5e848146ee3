//! The structure of each entity: what kind of node it is and which entities
//! it refers to.
use vstd::prelude::*;

use crate::ir::{Entity, Ident};

verus! {

/// The structural payload of an entity.
#[derive(Clone, Debug, PartialEq, Eq)]
pub enum Element {
    Number(Number),
    String(String),
    Symbol(Symbol),
    Tuple(Tuple),
    Record(Record),
    UnOp(UnOp),
    BiOp(BiOp),
    Variable(Variable),
    Select(Select),
    Apply(Apply),
    Parameter(Parameter),
    Capture(Capture),
    Closure(Closure),
    Module(Module),
}

/// A number literal.  Floating-point values are kept as their IEEE 754 bit
/// patterns.
#[derive(Clone, Copy, Debug, PartialEq, Eq, Structural)]
pub enum Number {
    U8(u8),
    U16(u16),
    U32(u32),
    U64(u64),
    I8(i8),
    I16(i16),
    I32(i32),
    I64(i64),
    F32(u32),
    F64(u64),
}

/// A symbol literal.
#[derive(Clone, Copy, Debug, PartialEq, Eq, Structural)]
pub struct Symbol {
    pub label: Ident,
}

/// A positional aggregate.
#[derive(Clone, Debug, PartialEq, Eq)]
pub struct Tuple {
    pub fields: Vec<Entity>,
}

/// A named aggregate.  Fields are kept in increasing order of their names,
/// so that each name occurs once.
#[derive(Clone, Debug, PartialEq, Eq)]
pub struct Record {
    pub fields: Vec<(Ident, Entity)>,
}

/// An unary operator.
#[derive(Clone, Copy, Debug, PartialEq, Eq, PartialOrd, Ord, Hash, Structural)]
pub enum UnOperator {
    /// Logical not.
    Not,
    /// Bit-wise not.
    BNot,
    /// Count leading zero bits.
    Cl0,
    /// Count leading one bits.
    Cl1,
    /// Count leading sign bits (number of consecutive bits equal to MSB after MSB).
    Cls,
    /// Count trailing zero bits.
    Ct0,
    /// Count trailing one bits.
    Ct1,
    /// Count number of zero bits.
    C0,
    /// Count number of one bits.
    C1,
    /// Square root.
    Sqrt,
}

/// An operator application with one operand.
#[derive(Clone, Copy, Debug, PartialEq, Eq, Structural)]
pub struct UnOp {
    /// The unary operator that is being applied.
    pub operator: UnOperator,
    /// The operand to the operator.
    pub operand: Entity,
}

/// A binary operator.
#[derive(Clone, Copy, Debug, PartialEq, Eq, PartialOrd, Ord, Hash, Structural)]
pub enum BiOperator {
    /// The equal-to operator.
    Eq,
    /// The not-equal-to operator.
    Ne,
    /// The less-than operator.
    Lt,
    /// The greater-than-or-equal-to operator.
    Ge,
    /// The greater-than operator.
    Gt,
    /// The less-than-or-equal-to operator.
    Le,
    /// The compare operator.
    Cmp,
    /// The addition operator.
    Add,
    /// The subtraction operator.
    Sub,
    /// The multiplication operator.
    Mul,
    /// The division operator.
    Div,
    /// The remainder operator.
    Rem,
    /// The logical and operator.
    And,
    /// The bit-wise and operator.
    BAnd,
    /// The logical or operator.
    Or,
    /// The bit-wise or operator.
    BOr,
    /// The logical xor operator.
    Xor,
    /// The bit-wise xor operator.
    BXor,
    /// The logical and-not operator.
    AndNot,
    /// The bit-wise and-not operator.
    BAndNot,
    /// The logical or-not operator.
    OrNot,
    /// The bit-wise or-not operator.
    BOrNot,
    /// The logical xor-not operator.
    XorNot,
    /// The bit-wise xor-not operator.
    BXorNot,
    /// The rotate-left operator.
    RotL,
    /// The rotate-right operator.
    RotR,
    /// The shift-left operator.
    ShL,
    /// The shift-right operator.
    ShR,
}

/// An operator application with two operands.
#[derive(Clone, Copy, Debug, PartialEq, Eq, Structural)]
pub struct BiOp {
    /// The left-hand-side operand of the operator.
    pub lhs: Entity,
    /// The binary operator that is being applied.
    pub operator: BiOperator,
    /// The right-hand-side operand of the operator.
    pub rhs: Entity,
}

/// A binding; its type is the type of its initializer.
#[derive(Clone, Copy, Debug, PartialEq, Eq, Structural)]
pub struct Variable {
    pub name: Ident,
    pub initializer: Entity,
}

/// A field projection.
#[derive(Clone, Copy, Debug, PartialEq, Eq, Structural)]
pub struct Select {
    pub record: Entity,
    pub field: Ident,
}

/// A call.
#[derive(Clone, Debug, PartialEq, Eq)]
pub struct Apply {
    pub function: Entity,
    pub parameters: Vec<Entity>,
}

/// A function parameter; its type is the type of its signature entity.
#[derive(Clone, Copy, Debug, PartialEq, Eq, Structural)]
pub struct Parameter {
    pub name: Ident,
    pub signature: Option<Entity>,
}

/// A free variable imported into a closure.
#[derive(Clone, Copy, Debug, PartialEq, Eq, Structural)]
pub struct Capture {
    pub name: Ident,
    pub captured: Entity,
}

/// A function literal.  Captures are kept in increasing order of their
/// names; the signature entity carries the declared result type.
#[derive(Clone, Debug, PartialEq, Eq)]
pub struct Closure {
    pub captures: Vec<(Ident, Entity)>,
    pub parameters: Vec<Entity>,
    pub statements: Vec<Entity>,
    pub signature: Option<Entity>,
    pub result: Entity,
}

/// The bindings that a scope exports, in increasing order of their names.
#[derive(Clone, Debug, PartialEq, Eq)]
pub struct Module {
    pub variables: Vec<(Ident, Entity)>,
}

/// Whether the names of a list of bindings strictly increase, so that each
/// name occurs once.
pub open spec fn names_increasing(bindings: Seq<(Ident, Entity)>) -> bool {
    forall|i: int, j: int| 0 <= i < j < bindings.len() ==> bindings[i].0.0 < bindings[j].0.0
}

/// Checks that the names of a list of bindings strictly increase.
pub fn check_names_increasing(bindings: &Vec<(Ident, Entity)>) -> (r: bool)
    ensures
        r == names_increasing(bindings@),
{
    let mut i: usize = 1;
    while i < bindings.len()
        invariant
            1 <= i,
            i <= bindings.len() || bindings.len() == 0,
            forall|a: int, b: int| 0 <= a < b < i && b < bindings.len() ==> bindings@[a].0.0 < bindings@[b].0.0,
        decreases bindings.len() - i,
    {
        if bindings[i - 1].0.0 >= bindings[i].0.0 {
            return false;
        }
        assert forall|a: int, b: int| 0 <= a < b < i + 1 && b < bindings.len() implies bindings@[a].0.0
            < bindings@[b].0.0 by {
            if b == i && a < i - 1 {
                assert(bindings@[a].0.0 < bindings@[i - 1].0.0);
            }
        }
        i = i + 1;
    }
    true
}

/// Whether some name occurs twice among the bindings.
pub open spec fn has_duplicate_names(bindings: Seq<(Ident, Entity)>) -> bool {
    exists|i: int, j: int| 0 <= i < j < bindings.len() && bindings[i].0 == bindings[j].0
}

/// The bindings in increasing order of their names, or `None` if a name
/// occurs twice.
pub fn sort_bindings(bindings: &Vec<(Ident, Entity)>) -> (r: Option<Vec<(Ident, Entity)>>)
    ensures
        r is None <==> has_duplicate_names(bindings@),
        r is Some ==> {
            let sorted = r.unwrap()@;
            &&& names_increasing(sorted)
            &&& sorted.len() == bindings@.len()
            &&& forall|x: (Ident, Entity)| sorted.contains(x) <==> bindings@.contains(x)
        },
{
    let mut acc: Vec<(Ident, Entity)> = Vec::new();
    let mut i: usize = 0;
    while i < bindings.len()
        invariant
            0 <= i <= bindings.len(),
            acc@.len() == i,
            names_increasing(acc@),
            forall|x: (Ident, Entity)| acc@.contains(x) <==> bindings@.subrange(0, i as int).contains(x),
            !has_duplicate_names(bindings@.subrange(0, i as int)),
        decreases bindings.len() - i,
    {
        let x = bindings[i];
        let ghost prefix = bindings@.subrange(0, i as int);
        let mut p: usize = 0;
        while p < acc.len() && acc[p].0.0 < x.0.0
            invariant
                0 <= p <= acc.len(),
                forall|q: int| 0 <= q < p ==> (#[trigger] acc@[q]).0.0 < x.0.0,
            decreases acc.len() - p,
        {
            p = p + 1;
        }
        if p < acc.len() && acc[p].0.0 == x.0.0 {
            proof {
                assert(acc@.contains(acc@[p as int]));
                let j = choose|j: int| 0 <= j < prefix.len() && prefix[j] == acc@[p as int];
                assert(bindings@[j].0 == bindings@[i as int].0);
                assert(has_duplicate_names(bindings@));
            }
            return None;
        }
        proof {
            assert forall|q: int| p <= q < acc@.len() implies x.0.0 < (#[trigger] acc@[q]).0.0 by {
                if q > p {
                    assert(acc@[p as int].0.0 < acc@[q].0.0);
                }
            }
        }
        let ghost before = acc@;
        acc.insert(p, x);
        proof {
            let next_prefix = bindings@.subrange(0, i + 1);
            assert(next_prefix =~= prefix.push(x));
            assert(acc@ =~= before.insert(p as int, x));
            assert forall|y: (Ident, Entity)| acc@.contains(y) <==> next_prefix.contains(y) by {
                if acc@.contains(y) {
                    let q = choose|q: int| 0 <= q < acc@.len() && acc@[q] == y;
                    if q < p {
                        assert(before.contains(before[q]));
                    } else if q > p {
                        assert(before.contains(before[q - 1]));
                    } else {
                        assert(next_prefix[i as int] == y);
                    }
                    if y != x {
                        assert(prefix.contains(y));
                        let j = choose|j: int| 0 <= j < prefix.len() && prefix[j] == y;
                        assert(next_prefix[j] == y);
                    } else {
                        assert(next_prefix[i as int] == y);
                    }
                }
                if next_prefix.contains(y) {
                    let j = choose|j: int| 0 <= j < next_prefix.len() && next_prefix[j] == y;
                    if j < i {
                        assert(prefix[j] == y);
                        assert(prefix.contains(y));
                        assert(before.contains(y));
                        let q = choose|q: int| 0 <= q < before.len() && before[q] == y;
                        if q < p {
                            assert(acc@[q] == y);
                        } else {
                            assert(acc@[q + 1] == y);
                        }
                    } else {
                        assert(acc@[p as int] == y);
                    }
                }
            }
            assert forall|a: int, b: int| 0 <= a < b < acc@.len() implies acc@[a].0.0
                < acc@[b].0.0 by {
                if a < p && b > p {
                    assert(before[a].0.0 < x.0.0);
                    assert(x.0.0 < before[b - 1].0.0);
                }
                if a < p && b == p {
                    assert(before[a].0.0 < x.0.0);
                }
                if a == p {
                    assert(x.0.0 < before[b - 1].0.0);
                }
            }
            assert(!has_duplicate_names(next_prefix)) by {
                if has_duplicate_names(next_prefix) {
                    let (a, b) = choose|a: int, b: int|
                        0 <= a < b < next_prefix.len() && next_prefix[a].0 == next_prefix[b].0;
                    if b < i {
                        assert(prefix[a].0 == prefix[b].0);
                    } else {
                        assert(prefix.contains(prefix[a]));
                        assert(before.contains(prefix[a]));
                        let q = choose|q: int| 0 <= q < before.len() && before[q] == prefix[a];
                        assert(before[q].0.0 != x.0.0);
                    }
                }
            }
        }
        i = i + 1;
    }
    proof {
        assert(bindings@.subrange(0, bindings.len() as int) =~= bindings@);
    }
    Some(acc)
}

impl Record {
    /// A record of the given fields, in increasing order of their names, or
    /// `None` if a name occurs twice.
    pub fn new(fields: &Vec<(Ident, Entity)>) -> (r: Option<Record>)
        ensures
            r is None <==> has_duplicate_names(fields@),
            r is Some ==> {
                let sorted = r.unwrap().fields@;
                &&& names_increasing(sorted)
                &&& sorted.len() == fields@.len()
                &&& forall|x: (Ident, Entity)| sorted.contains(x) <==> fields@.contains(x)
            },
    {
        match sort_bindings(fields) {
            Some(sorted) => Some(Record { fields: sorted }),
            None => None,
        }
    }
}

impl Module {
    /// A module of the given bindings, in increasing order of their names, or
    /// `None` if a name occurs twice.
    pub fn new(variables: &Vec<(Ident, Entity)>) -> (r: Option<Module>)
        ensures
            r is None <==> has_duplicate_names(variables@),
            r is Some ==> {
                let sorted = r.unwrap().variables@;
                &&& names_increasing(sorted)
                &&& sorted.len() == variables@.len()
                &&& forall|x: (Ident, Entity)| sorted.contains(x) <==> variables@.contains(x)
            },
    {
        match sort_bindings(variables) {
            Some(sorted) => Some(Module { variables: sorted }),
            None => None,
        }
    }
}

/// The entities of a list of bindings.
pub open spec fn binding_targets(bindings: Seq<(Ident, Entity)>) -> Seq<Entity> {
    Seq::new(bindings.len(), |i: int| bindings[i].1)
}

/// The entities of a list of bindings.
pub fn targets_of(bindings: &Vec<(Ident, Entity)>) -> (r: Vec<Entity>)
    ensures
        r@ == binding_targets(bindings@),
{
    let mut r: Vec<Entity> = Vec::new();
    let mut i: usize = 0;
    while i < bindings.len()
        invariant
            0 <= i <= bindings.len(),
            r@ == binding_targets(bindings@.subrange(0, i as int)),
        decreases bindings.len() - i,
    {
        r.push(bindings[i].1);
        i = i + 1;
        assert(r@ =~= binding_targets(bindings@.subrange(0, i as int)));
    }
    assert(bindings@.subrange(0, bindings.len() as int) =~= bindings@);
    r
}

/// How the operator is written in source.
pub open spec fn un_operator_symbol(operator: UnOperator) -> Seq<char> {
    match operator {
        UnOperator::Not => "!"@,
        UnOperator::BNot => "~!"@,
        UnOperator::Cl0 => "#^0"@,
        UnOperator::Cl1 => "#^1"@,
        UnOperator::Cls => "#^-"@,
        UnOperator::Ct0 => "#$0"@,
        UnOperator::Ct1 => "#$1"@,
        UnOperator::C0 => "#0"@,
        UnOperator::C1 => "#1"@,
        UnOperator::Sqrt => "^/"@,
    }
}

impl UnOperator {
    /// How the operator is written in source.
    pub fn symbol(&self) -> (r: &'static str)
        ensures
            r@ == un_operator_symbol(*self),
    {
        match self {
            UnOperator::Not => "!",
            UnOperator::BNot => "~!",
            UnOperator::Cl0 => "#^0",
            UnOperator::Cl1 => "#^1",
            UnOperator::Cls => "#^-",
            UnOperator::Ct0 => "#$0",
            UnOperator::Ct1 => "#$1",
            UnOperator::C0 => "#0",
            UnOperator::C1 => "#1",
            UnOperator::Sqrt => "^/",
        }
    }
}

/// How the operator is written in source.
pub open spec fn bi_operator_symbol(operator: BiOperator) -> Seq<char> {
    match operator {
        BiOperator::Eq => "=="@,
        BiOperator::Ne => "!="@,
        BiOperator::Lt => "<"@,
        BiOperator::Ge => ">="@,
        BiOperator::Gt => ">"@,
        BiOperator::Le => "<="@,
        BiOperator::Cmp => "<=>"@,
        BiOperator::Add => "+"@,
        BiOperator::Sub => "-"@,
        BiOperator::Mul => "*"@,
        BiOperator::Div => "/"@,
        BiOperator::Rem => "%"@,
        BiOperator::And => "&"@,
        BiOperator::BAnd => "~&"@,
        BiOperator::Or => "|"@,
        BiOperator::BOr => "~|"@,
        BiOperator::Xor => "^"@,
        BiOperator::BXor => "~^"@,
        BiOperator::AndNot => "&!"@,
        BiOperator::BAndNot => "~&!"@,
        BiOperator::OrNot => "|!"@,
        BiOperator::BOrNot => "~|!"@,
        BiOperator::XorNot => "^!"@,
        BiOperator::BXorNot => "~^!"@,
        BiOperator::RotL => "<-<"@,
        BiOperator::RotR => ">->"@,
        BiOperator::ShL => "<<"@,
        BiOperator::ShR => ">>"@,
    }
}

impl BiOperator {
    /// How the operator is written in source.
    pub fn symbol(&self) -> (r: &'static str)
        ensures
            r@ == bi_operator_symbol(*self),
    {
        match self {
            BiOperator::Eq => "==",
            BiOperator::Ne => "!=",
            BiOperator::Lt => "<",
            BiOperator::Ge => ">=",
            BiOperator::Gt => ">",
            BiOperator::Le => "<=",
            BiOperator::Cmp => "<=>",
            BiOperator::Add => "+",
            BiOperator::Sub => "-",
            BiOperator::Mul => "*",
            BiOperator::Div => "/",
            BiOperator::Rem => "%",
            BiOperator::And => "&",
            BiOperator::BAnd => "~&",
            BiOperator::Or => "|",
            BiOperator::BOr => "~|",
            BiOperator::Xor => "^",
            BiOperator::BXor => "~^",
            BiOperator::AndNot => "&!",
            BiOperator::BAndNot => "~&!",
            BiOperator::OrNot => "|!",
            BiOperator::BOrNot => "~|!",
            BiOperator::XorNot => "^!",
            BiOperator::BXorNot => "~^!",
            BiOperator::RotL => "<-<",
            BiOperator::RotR => ">->",
            BiOperator::ShL => "<<",
            BiOperator::ShR => ">>",
        }
    }
}

impl Element {
    /// Whether the name lists of the element are in increasing order.
    pub open spec fn wf(&self) -> bool {
        match self {
            Element::Record(r) => names_increasing(r.fields@),
            Element::Closure(c) => names_increasing(c.captures@),
            Element::Module(m) => names_increasing(m.variables@),
            _ => true,
        }
    }

    /// Checks [`Element::wf`].
    pub fn is_well_formed(&self) -> (r: bool)
        ensures
            r == self.wf(),
    {
        match self {
            Element::Record(r) => check_names_increasing(&r.fields),
            Element::Closure(c) => check_names_increasing(&c.captures),
            Element::Module(m) => check_names_increasing(&m.variables),
            _ => true,
        }
    }

    /// Whether the element applies an operator that has no typing rule.
    pub open spec fn is_unsupported(&self) -> bool {
        match self {
            Element::BiOp(b) => b.operator == BiOperator::Cmp,
            _ => false,
        }
    }

    /// Checks [`Element::is_unsupported`].
    pub fn uses_unsupported_operator(&self) -> (r: bool)
        ensures
            r == self.is_unsupported(),
    {
        match self {
            Element::BiOp(b) => b.operator == BiOperator::Cmp,
            _ => false,
        }
    }
}

} // verus!
