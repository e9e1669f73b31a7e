//! The canonical field type model shared by every lowered entity.
use vstd::prelude::*;

verus! {

/// Media kinds that a primitive media type can name.
#[derive(Clone, Copy, Debug, PartialEq, Eq, Hash, Structural)]
pub enum BamlMediaType {
    Image,
    Audio,
}

/// The primitive kinds of the type model.
#[derive(Clone, Copy, Debug, PartialEq, Eq, Hash, Structural)]
pub enum TypeValue {
    String,
    Int,
    Float,
    Bool,
    Null,
    Media(BamlMediaType),
}

/// A literal value usable as a type.
#[derive(Clone, Debug, PartialEq, Eq, Hash)]
pub enum LiteralValue {
    String(String),
    Int(i64),
    Bool(bool),
}

/// Mathematical model of a [`LiteralValue`].
pub ghost enum LiteralValueView {
    String(Seq<char>),
    Int(int),
    Bool(bool),
}

impl View for LiteralValue {
    type V = LiteralValueView;

    open spec fn view(&self) -> LiteralValueView {
        match self {
            LiteralValue::String(s) => LiteralValueView::String(s@),
            LiteralValue::Int(i) => LiteralValueView::Int(*i as int),
            LiteralValue::Bool(b) => LiteralValueView::Bool(*b),
        }
    }
}

impl LiteralValue {
    /// An independent copy of the literal.
    pub fn duplicate(&self) -> (r: LiteralValue)
        ensures
            r@ == self@,
    {
        match self {
            LiteralValue::String(s) => LiteralValue::String(s.clone()),
            LiteralValue::Int(i) => LiteralValue::Int(*i),
            LiteralValue::Bool(b) => LiteralValue::Bool(*b),
        }
    }

    /// Whether two literals denote the same value.
    pub fn same(&self, other: &LiteralValue) -> (r: bool)
        ensures
            r == (self@ == other@),
    {
        match (self, other) {
            (LiteralValue::String(a), LiteralValue::String(b)) => *a == *b,
            (LiteralValue::Int(a), LiteralValue::Int(b)) => *a == *b,
            (LiteralValue::Bool(a), LiteralValue::Bool(b)) => *a == *b,
            _ => false,
        }
    }
}

/// How strictly a constraint is enforced.
#[derive(Clone, Copy, Debug, PartialEq, Eq, Hash, Structural)]
pub enum ConstraintLevel {
    Check,
    Assert,
}

/// An opaque template expression, kept as source text.
#[derive(Clone, Debug, PartialEq, Eq, Hash)]
pub struct JinjaExpression(pub String);

/// A predicate attached to a type.
#[derive(Clone, Debug, PartialEq, Eq, Hash)]
pub struct Constraint {
    pub level: ConstraintLevel,
    pub expression: JinjaExpression,
    pub label: Option<String>,
}

/// Mathematical model of a [`Constraint`].
pub ghost struct ConstraintView {
    pub level: ConstraintLevel,
    pub expression: Seq<char>,
    pub label: Option<Seq<char>>,
}

impl View for Constraint {
    type V = ConstraintView;

    open spec fn view(&self) -> ConstraintView {
        ConstraintView {
            level: self.level,
            expression: self.expression.0@,
            label: match self.label {
                Some(l) => Some(l@),
                None => None,
            },
        }
    }
}

/// The views of a sequence of constraints, element by element.
pub open spec fn constraint_views(cs: Seq<Constraint>) -> Seq<ConstraintView> {
    Seq::new(cs.len(), |i: int| cs[i]@)
}

impl Constraint {
    /// An independent copy of the constraint.
    pub fn duplicate(&self) -> (r: Constraint)
        ensures
            r@ == self@,
    {
        Constraint {
            level: self.level,
            expression: JinjaExpression(self.expression.0.clone()),
            label: match &self.label {
                Some(l) => Some(l.clone()),
                None => None,
            },
        }
    }
}

/// Copies a list of constraints.
pub fn duplicate_constraints(cs: &Vec<Constraint>) -> (r: Vec<Constraint>)
    ensures
        constraint_views(r@) == constraint_views(cs@),
{
    let mut out: Vec<Constraint> = Vec::new();
    let mut i: usize = 0;
    while i < cs.len()
        invariant
            i <= cs.len(),
            out@.len() == i,
            forall|j: int| 0 <= j < i ==> out@[j]@ == cs@[j]@,
        decreases cs.len() - i,
    {
        out.push(cs[i].duplicate());
        i += 1;
    }
    assert(constraint_views(out@) =~= constraint_views(cs@));
    out
}

/// The canonical type of a field, argument or return value.
#[derive(Debug, PartialEq, Eq, Hash)]
pub enum FieldType {
    Primitive(TypeValue),
    Literal(LiteralValue),
    Class(String),
    Enum(String),
    Optional(Box<FieldType>),
    List(Box<FieldType>),
    Mapping(Box<FieldType>, Box<FieldType>),
    Union(Vec<FieldType>),
    Tuple(Vec<FieldType>),
    Constrained { base: Box<FieldType>, constraints: Vec<Constraint> },
}

/// Mathematical model of a [`FieldType`].
pub ghost enum FieldTypeView {
    Primitive(TypeValue),
    Literal(LiteralValueView),
    Class(Seq<char>),
    Enum(Seq<char>),
    Optional(Box<FieldTypeView>),
    List(Box<FieldTypeView>),
    Mapping(Box<FieldTypeView>, Box<FieldTypeView>),
    Union(Seq<FieldTypeView>),
    Tuple(Seq<FieldTypeView>),
    Constrained { base: Box<FieldTypeView>, constraints: Seq<ConstraintView> },
}

/// The model of a field type, defined by recursion over its structure.
pub open spec fn field_type_view(t: FieldType) -> FieldTypeView
    decreases t,
{
    match t {
        FieldType::Primitive(p) => FieldTypeView::Primitive(p),
        FieldType::Literal(l) => FieldTypeView::Literal(l@),
        FieldType::Class(n) => FieldTypeView::Class(n@),
        FieldType::Enum(n) => FieldTypeView::Enum(n@),
        FieldType::Optional(inner) => FieldTypeView::Optional(Box::new(field_type_view(*inner))),
        FieldType::List(inner) => FieldTypeView::List(Box::new(field_type_view(*inner))),
        FieldType::Mapping(k, v) => FieldTypeView::Mapping(
            Box::new(field_type_view(*k)),
            Box::new(field_type_view(*v)),
        ),
        FieldType::Union(ts) => FieldTypeView::Union(
            Seq::new(
                ts@.len(),
                |i: int|
                    if 0 <= i < ts@.len() {
                        field_type_view(ts@[i])
                    } else {
                        FieldTypeView::Primitive(TypeValue::Null)
                    },
            ),
        ),
        FieldType::Tuple(ts) => FieldTypeView::Tuple(
            Seq::new(
                ts@.len(),
                |i: int|
                    if 0 <= i < ts@.len() {
                        field_type_view(ts@[i])
                    } else {
                        FieldTypeView::Primitive(TypeValue::Null)
                    },
            ),
        ),
        FieldType::Constrained { base, constraints } => FieldTypeView::Constrained {
            base: Box::new(field_type_view(*base)),
            constraints: constraint_views(constraints@),
        },
    }
}

impl View for FieldType {
    type V = FieldTypeView;

    open spec fn view(&self) -> FieldTypeView {
        field_type_view(*self)
    }
}

/// The views of a sequence of field types, element by element.
pub open spec fn field_type_views(ts: Seq<FieldType>) -> Seq<FieldTypeView> {
    Seq::new(ts.len(), |i: int| ts[i]@)
}

impl FieldType {
    /// An independent copy of the type.
    pub fn duplicate(&self) -> (r: FieldType)
        ensures
            r@ == self@,
        decreases self,
    {
        match self {
            FieldType::Primitive(p) => FieldType::Primitive(*p),
            FieldType::Literal(l) => FieldType::Literal(l.duplicate()),
            FieldType::Class(n) => FieldType::Class(n.clone()),
            FieldType::Enum(n) => FieldType::Enum(n.clone()),
            FieldType::Optional(inner) => FieldType::Optional(Box::new(inner.duplicate())),
            FieldType::List(inner) => FieldType::List(Box::new(inner.duplicate())),
            FieldType::Mapping(k, v) => FieldType::Mapping(
                Box::new(k.duplicate()),
                Box::new(v.duplicate()),
            ),
            FieldType::Union(ts) => {
                let mut out: Vec<FieldType> = Vec::new();
                let mut i: usize = 0;
                while i < ts.len()
                    invariant
                        i <= ts.len(),
                        out@.len() == i,
                        forall|j: int| 0 <= j < i ==> out@[j]@ == ts@[j]@,
                        forall|j: int| 0 <= j < ts.len() ==> decreases_to!(self => ts@[j]),
                    decreases ts.len() - i,
                {
                    out.push(ts[i].duplicate());
                    i += 1;
                }
                let r = FieldType::Union(out);
                assert(r@->Union_0 =~= self@->Union_0);
                r
            },
            FieldType::Tuple(ts) => {
                let mut out: Vec<FieldType> = Vec::new();
                let mut i: usize = 0;
                while i < ts.len()
                    invariant
                        i <= ts.len(),
                        out@.len() == i,
                        forall|j: int| 0 <= j < i ==> out@[j]@ == ts@[j]@,
                        forall|j: int| 0 <= j < ts.len() ==> decreases_to!(self => ts@[j]),
                    decreases ts.len() - i,
                {
                    out.push(ts[i].duplicate());
                    i += 1;
                }
                let r = FieldType::Tuple(out);
                assert(r@->Tuple_0 =~= self@->Tuple_0);
                r
            },
            FieldType::Constrained { base, constraints } => FieldType::Constrained {
                base: Box::new(base.duplicate()),
                constraints: duplicate_constraints(constraints),
            },
        }
    }
}

impl Clone for FieldType {
    fn clone(&self) -> (r: FieldType)
        ensures
            r@ == self@,
    {
        self.duplicate()
    }
}

} // verus!
