//! Lowering of declared types into the canonical type model.
//!
//! A list of `n` dimensions lowers to `n` nested lists around its element type;
//! with zero dimensions that is the element type itself, never a list.
use vstd::prelude::*;
use crate::ast;
use crate::ast::FieldArity;
use crate::ast::ParserDatabase;
use crate::ast::Span;
use crate::ast::TypeRef;
use crate::node::NodeAttributes;
use crate::node::NodeAttributesView;
use crate::seqs::collect_results;
use crate::seqs::lemma_collect_prefix_error;
use crate::seqs::lemma_collect_step;
use crate::text::eq_str;
use crate::types::constraint_views;
use crate::types::duplicate_constraints;
use crate::types::field_type_views;
use crate::types::Constraint;
use crate::types::ConstraintLevel;
use crate::types::ConstraintView;
use crate::types::FieldType;
use crate::types::FieldTypeView;
use crate::types::JinjaExpression;
use crate::types::TypeValue;

verus! {

/// Why a schema could not be lowered.
#[derive(Clone, Copy, Debug, PartialEq, Eq, Hash, Structural)]
pub enum LoweringErrorKind {
    /// A type names neither a class nor an enum.
    UnresolvableIdentifier,
    /// An expression holds a name that the parser marked invalid.
    InvalidIdentifier,
    /// A class field has no type.
    MissingFieldType,
    /// A function lacks its parameter list or its return type.
    MalformedFunctionSignature,
    /// A function names its client in a way that cannot be understood.
    InvalidClientSpec,
}

/// A schema error with the place where it was found.
#[derive(Clone, Copy, Debug, PartialEq, Eq, Hash, Structural)]
pub struct LoweringError {
    pub kind: LoweringErrorKind,
    pub span: Span,
}

/// The text that describes each kind of error.
pub open spec fn error_text(kind: LoweringErrorKind) -> Seq<char> {
    match kind {
        LoweringErrorKind::UnresolvableIdentifier => "Field type uses unresolvable local identifier"@,
        LoweringErrorKind::InvalidIdentifier => "Cannot represent an invalid parser-AST identifier"@,
        LoweringErrorKind::MissingFieldType => "Internal error occurred while resolving repr of field"@,
        LoweringErrorKind::MalformedFunctionSignature => "Function is missing its inputs or its output"@,
        LoweringErrorKind::InvalidClientSpec => "Function names an invalid client"@,
    }
}

impl LoweringError {
    /// A description of the error.
    pub fn message(&self) -> (r: String)
        ensures
            r@ == error_text(self.kind),
    {
        match self.kind {
            LoweringErrorKind::UnresolvableIdentifier => String::from_str(
                "Field type uses unresolvable local identifier",
            ),
            LoweringErrorKind::InvalidIdentifier => String::from_str(
                "Cannot represent an invalid parser-AST identifier",
            ),
            LoweringErrorKind::MissingFieldType => String::from_str(
                "Internal error occurred while resolving repr of field",
            ),
            LoweringErrorKind::MalformedFunctionSignature => String::from_str(
                "Function is missing its inputs or its output",
            ),
            LoweringErrorKind::InvalidClientSpec => String::from_str(
                "Function names an invalid client",
            ),
        }
    }
}

/// The model of a result: the model of its value, or its error.
pub open spec fn ok_view<T: View, E>(r: Result<T, E>) -> Result<T::V, E> {
    match r {
        Ok(v) => Ok(v@),
        Err(e) => Err(e),
    }
}

/// The level that an attribute name stands for: `assert` and `check` name
/// constraints, every other name does not.
pub open spec fn constraint_level(name: Seq<char>) -> Option<ConstraintLevel> {
    if name == "assert"@ {
        Some(ConstraintLevel::Assert)
    } else if name == "check"@ {
        Some(ConstraintLevel::Check)
    } else {
        None
    }
}

/// The label and expression that the arguments of a constraint attribute give:
/// a single template expression, or a local name followed by a template
/// expression. Any other shape gives nothing.
pub open spec fn constraint_arguments(args: Seq<ast::Argument>) -> Option<
    (Option<Seq<char>>, Seq<char>),
> {
    if args.len() == 2 {
        match (args[0].value, args[1].value) {
            (
                ast::Expression::Identifier(ast::Identifier::Local(s, _)),
                ast::Expression::JinjaExpressionValue(j, _),
            ) => Some((Some(s@), j.0@)),
            _ => None,
        }
    } else if args.len() == 1 {
        match args[0].value {
            ast::Expression::JinjaExpressionValue(j, _) => Some((None, j.0@)),
            _ => None,
        }
    } else {
        None
    }
}

/// The constraint that one attribute declares, if it declares one.
pub open spec fn attribute_constraint(a: ast::Attribute) -> Option<ConstraintView> {
    match (constraint_level(a.name@), constraint_arguments(a.arguments@)) {
        (Some(level), Some((label, expression))) => Some(
            ConstraintView { level, expression, label },
        ),
        _ => None,
    }
}

/// The constraints that a list of attributes declares, in order.
pub open spec fn own_constraints(attrs: Seq<ast::Attribute>) -> Seq<ConstraintView>
    decreases attrs.len(),
{
    if attrs.len() == 0 {
        Seq::empty()
    } else {
        let rest = own_constraints(attrs.drop_last());
        match attribute_constraint(attrs.last()) {
            Some(c) => rest.push(c),
            None => rest,
        }
    }
}

fn level_of(name: &String) -> (r: Option<ConstraintLevel>)
    ensures
        r == constraint_level(name@),
{
    if eq_str(name, "assert") {
        Some(ConstraintLevel::Assert)
    } else if eq_str(name, "check") {
        Some(ConstraintLevel::Check)
    } else {
        None
    }
}

fn constraint_of(a: &ast::Attribute) -> (r: Option<Constraint>)
    ensures
        match r {
            Some(c) => attribute_constraint(*a) == Some(c@),
            None => attribute_constraint(*a) is None,
        },
{
    let level = match level_of(&a.name) {
        Some(l) => l,
        None => {
            return None;
        },
    };
    if a.arguments.len() == 2 {
        match (&a.arguments[0].value, &a.arguments[1].value) {
            (
                ast::Expression::Identifier(ast::Identifier::Local(s, _)),
                ast::Expression::JinjaExpressionValue(j, _),
            ) => Some(
                Constraint {
                    level,
                    expression: JinjaExpression(j.0.clone()),
                    label: Some(s.clone()),
                },
            ),
            _ => None,
        }
    } else if a.arguments.len() == 1 {
        match &a.arguments[0].value {
            ast::Expression::JinjaExpressionValue(j, _) => Some(
                Constraint { level, expression: JinjaExpression(j.0.clone()), label: None },
            ),
            _ => None,
        }
    } else {
        None
    }
}

/// Reads the constraints off the attributes written on a type: each `assert`
/// or `check` attribute of an accepted shape gives one, in order; everything
/// else is passed over.
pub fn extract_constraints(attrs: &Vec<ast::Attribute>) -> (r: Vec<Constraint>)
    ensures
        constraint_views(r@) == own_constraints(attrs@),
{
    let mut out: Vec<Constraint> = Vec::new();
    let mut i: usize = 0;
    assert(constraint_views(out@) =~= own_constraints(attrs@.take(0)));
    while i < attrs.len()
        invariant
            i <= attrs.len(),
            constraint_views(out@) == own_constraints(attrs@.take(i as int)),
        decreases attrs.len() - i,
    {
        let ghost before = out@;
        let found = constraint_of(&attrs[i]);
        proof {
            assert(attrs@.take(i + 1).drop_last() =~= attrs@.take(i as int));
            assert(attrs@.take(i + 1).last() == attrs@[i as int]);
        }
        match found {
            Some(c) => {
                out.push(c);
                assert(constraint_views(out@) =~= constraint_views(before).push(c@));
            },
            None => {},
        }
        i += 1;
    }
    assert(attrs@.take(attrs.len() as int) =~= attrs@);
    out
}

/// The attributes of a type written in source: no metadata, the constraints
/// declared on the type itself, and its span.
pub fn field_type_attributes(t: &ast::FieldType) -> (r: NodeAttributes)
    ensures
        r@ == (NodeAttributesView {
            meta: Seq::empty(),
            constraints: own_constraints(t.attributes_of()),
            span: Some(t.span_of()),
        }),
{
    let constraints = extract_constraints(t.attributes());
    NodeAttributes::bare(constraints, Some(t.span()))
}

/// A type under an arity: an optional one is wrapped in `Optional`.
pub open spec fn apply_arity(t: FieldTypeView, arity: FieldArity) -> FieldTypeView {
    match arity {
        FieldArity::Required => t,
        FieldArity::Optional => FieldTypeView::Optional(Box::new(t)),
    }
}

/// A type under a list of constraints: wrapped in `Constrained` unless the list
/// is empty.
pub open spec fn constrain(t: FieldTypeView, constraints: Seq<ConstraintView>) -> FieldTypeView {
    if constraints.len() > 0 {
        FieldTypeView::Constrained { base: Box::new(t), constraints }
    } else {
        t
    }
}

/// A type inside `dims` nested lists.
pub open spec fn nested_list(t: FieldTypeView, dims: nat) -> FieldTypeView
    decreases dims,
{
    if dims == 0 {
        t
    } else {
        FieldTypeView::List(Box::new(nested_list(t, (dims - 1) as nat)))
    }
}

/// The constraints that a declaration carries.
pub open spec fn declared_constraints(attrs: Option<ast::Attributes>) -> Seq<ConstraintView> {
    match attrs {
        Some(a) => constraint_views(a.constraints@),
        None => Seq::empty(),
    }
}

/// What a type name lowers to: the class or enum it resolves to, under the
/// constraints of that declaration; an error at `span` if it resolves to
/// nothing.
pub open spec fn lowered_symbol(db: ParserDatabase, name: Seq<char>, span: Span) -> Result<
    FieldTypeView,
    LoweringError,
> {
    match db.resolve(name) {
        Some(TypeRef::Class(i)) => Ok(
            constrain(
                FieldTypeView::Class(db.classes@[i as int].name@),
                declared_constraints(db.classes@[i as int].attributes),
            ),
        ),
        Some(TypeRef::Enum(i)) => Ok(
            constrain(
                FieldTypeView::Enum(db.enums@[i as int].name@),
                declared_constraints(db.enums@[i as int].attributes),
            ),
        ),
        None => Err(LoweringError { kind: LoweringErrorKind::UnresolvableIdentifier, span }),
    }
}

/// The members of a union: those written, and the null type after them when
/// the union is optional.
pub open spec fn union_members(members: Seq<FieldTypeView>, arity: FieldArity) -> Seq<
    FieldTypeView,
> {
    match arity {
        FieldArity::Required => members,
        FieldArity::Optional => members.push(FieldTypeView::Primitive(TypeValue::Null)),
    }
}

/// What a declared type lowers to: its [`lowered_base`], under the constraints
/// written on the type itself.
pub open spec fn lowered_type(t: ast::FieldType, db: ParserDatabase) -> Result<
    FieldTypeView,
    LoweringError,
>
    decreases t, 1nat,
{
    match lowered_base(t, db) {
        Ok(base) => Ok(constrain(base, own_constraints(t.attributes_of()))),
        Err(e) => Err(e),
    }
}

/// What a declared type lowers to before its own constraints are applied.
///
/// Primitives, literals, names, lists, maps and tuples lower to the
/// corresponding type under their arity. A union lowers to the union of its
/// members, with the null type added when it is optional. The first member that
/// fails to lower, in source order, fails the whole.
pub open spec fn lowered_base(t: ast::FieldType, db: ParserDatabase) -> Result<
    FieldTypeView,
    LoweringError,
>
    decreases t, 0nat,
{
    match t {
        ast::FieldType::Primitive(arity, p, _, _) => Ok(
            apply_arity(FieldTypeView::Primitive(p), arity),
        ),
        ast::FieldType::Literal(arity, l, _, _) => Ok(
            apply_arity(FieldTypeView::Literal(l@), arity),
        ),
        ast::FieldType::Symbol(arity, name, span, _) => match lowered_symbol(db, name@, span) {
            Ok(s) => Ok(apply_arity(s, arity)),
            Err(e) => Err(e),
        },
        ast::FieldType::List(arity, elem, dims, _, _) => match lowered_type(*elem, db) {
            Ok(e) => Ok(apply_arity(nested_list(e, dims as nat), arity)),
            Err(e) => Err(e),
        },
        ast::FieldType::Mapping(arity, kv, _, _) => match lowered_type(kv.0, db) {
            Ok(k) => match lowered_type(kv.1, db) {
                Ok(v) => Ok(apply_arity(FieldTypeView::Mapping(Box::new(k), Box::new(v)), arity)),
                Err(e) => Err(e),
            },
            Err(e) => Err(e),
        },
        ast::FieldType::Union(arity, ts, _, _) => match collect_results(
            lowered_members(ts@, db),
        ) {
            Ok(ms) => Ok(FieldTypeView::Union(union_members(ms, arity))),
            Err(e) => Err(e),
        },
        ast::FieldType::Tuple(arity, ts, _, _) => match collect_results(
            lowered_members(ts@, db),
        ) {
            Ok(ms) => Ok(apply_arity(FieldTypeView::Tuple(ms), arity)),
            Err(e) => Err(e),
        },
    }
}

/// What each member of a union or tuple lowers to.
pub open spec fn lowered_members(ts: Seq<ast::FieldType>, db: ParserDatabase) -> Seq<
    Result<FieldTypeView, LoweringError>,
>
    decreases ts, 0nat,
{
    Seq::new(
        ts.len(),
        |i: int|
            if 0 <= i < ts.len() {
                lowered_type(ts[i], db)
            } else {
                Ok(FieldTypeView::Primitive(TypeValue::Null))
            },
    )
}

/// The same result with its type, if any, wrapped in `Optional`.
pub open spec fn optional_of(r: Result<FieldTypeView, LoweringError>) -> Result<
    FieldTypeView,
    LoweringError,
> {
    match r {
        Ok(t) => Ok(FieldTypeView::Optional(Box::new(t))),
        Err(e) => Err(e),
    }
}

/// Arity and lowering commute: a type that is not a union and carries no
/// constraint of its own lowers, when optional, to `Optional` of what it lowers
/// to when required, and fails when optional exactly as it fails when required.
pub proof fn lemma_optional_commutes(t: ast::FieldType, db: ParserDatabase)
    requires
        !(t is Union),
        own_constraints(t.attributes_of()).len() == 0,
    ensures
        lowered_type(t.with_arity(FieldArity::Optional), db) == optional_of(
            lowered_type(t.with_arity(FieldArity::Required), db),
        ),
{
    let o = t.with_arity(FieldArity::Optional);
    let r = t.with_arity(FieldArity::Required);
    assert(o.attributes_of() == t.attributes_of());
    assert(r.attributes_of() == t.attributes_of());
}

/// An optional union lowers to a union whose last member is the null type, and
/// is never wrapped in `Optional`.
pub proof fn lemma_optional_union(t: ast::FieldType, db: ParserDatabase)
    requires
        t is Union,
        t.arity_of() == FieldArity::Optional,
        lowered_base(t, db) is Ok,
    ensures
        lowered_base(t, db)->Ok_0 is Union,
        lowered_base(t, db)->Ok_0->Union_0.len() == t->Union_1@.len() + 1,
        lowered_base(t, db)->Ok_0->Union_0.last() == FieldTypeView::Primitive(TypeValue::Null),
{
    crate::seqs::lemma_collect_results(lowered_members(t->Union_1@, db));
}

fn under_arity(t: FieldType, arity: FieldArity) -> (r: FieldType)
    ensures
        r@ == apply_arity(t@, arity),
{
    match arity {
        FieldArity::Required => t,
        FieldArity::Optional => FieldType::Optional(Box::new(t)),
    }
}

fn under_constraints(t: FieldType, constraints: Vec<Constraint>) -> (r: FieldType)
    ensures
        r@ == constrain(t@, constraint_views(constraints@)),
{
    if constraints.len() > 0 {
        FieldType::Constrained { base: Box::new(t), constraints }
    } else {
        t
    }
}

fn declared_constraints_of(attrs: &Option<ast::Attributes>) -> (r: Vec<Constraint>)
    ensures
        constraint_views(r@) == declared_constraints(*attrs),
{
    match attrs {
        Some(a) => duplicate_constraints(&a.constraints),
        None => {
            let r: Vec<Constraint> = Vec::new();
            assert(constraint_views(r@) =~= Seq::<ConstraintView>::empty());
            r
        },
    }
}

fn lower_symbol(db: &ParserDatabase, name: &String, span: Span) -> (r: Result<
    FieldType,
    LoweringError,
>)
    ensures
        ok_view(r) == lowered_symbol(*db, name@, span),
{
    match db.find_type(name) {
        Some(TypeRef::Class(i)) => {
            let class = &db.classes[i];
            Ok(
                under_constraints(
                    FieldType::Class(class.name.clone()),
                    declared_constraints_of(&class.attributes),
                ),
            )
        },
        Some(TypeRef::Enum(i)) => {
            let decl = &db.enums[i];
            Ok(
                under_constraints(
                    FieldType::Enum(decl.name.clone()),
                    declared_constraints_of(&decl.attributes),
                ),
            )
        },
        None => Err(LoweringError { kind: LoweringErrorKind::UnresolvableIdentifier, span }),
    }
}

fn lower_members(ts: &Vec<ast::FieldType>, db: &ParserDatabase, Ghost(parent): Ghost<
    ast::FieldType,
>) -> (r: Result<Vec<FieldType>, LoweringError>)
    requires
        forall|j: int| 0 <= j < ts@.len() ==> decreases_to!(parent => ts@[j]),
    ensures
        match r {
            Ok(v) => collect_results(lowered_members(ts@, *db)) == Ok::<
                Seq<FieldTypeView>,
                LoweringError,
            >(field_type_views(v@)),
            Err(e) => collect_results(lowered_members(ts@, *db)) == Err::<
                Seq<FieldTypeView>,
                LoweringError,
            >(e),
        },
    decreases parent, 0nat,
{
    let mut out: Vec<FieldType> = Vec::new();
    let ghost rs = lowered_members(ts@, *db);
    let mut i: usize = 0;
    assert(field_type_views(out@) =~= Seq::<FieldTypeView>::empty());
    assert(rs.take(0) =~= Seq::empty());
    while i < ts.len()
        invariant
            i <= ts.len(),
            rs == lowered_members(ts@, *db),
            forall|j: int| 0 <= j < ts@.len() ==> decreases_to!(parent => ts@[j]),
            collect_results(rs.take(i as int)) == Ok::<Seq<FieldTypeView>, LoweringError>(
                field_type_views(out@),
            ),
        decreases ts.len() - i,
    {
        let ghost before = out@;
        proof {
            lemma_collect_step(rs, i as int);
        }
        match lower_type(&ts[i], db) {
            Ok(t) => {
                out.push(t);
                assert(field_type_views(out@) =~= field_type_views(before).push(t@));
            },
            Err(e) => {
                proof {
                    lemma_collect_prefix_error(rs, i as int + 1);
                }
                return Err(e);
            },
        }
        i += 1;
    }
    assert(rs.take(ts.len() as int) =~= rs);
    Ok(out)
}

/// Lowers a declared type into the canonical type model.
///
/// The result is exactly [`lowered_type`]: the type on success, and otherwise
/// the error of the first name, in source order, that resolves to neither a
/// class nor an enum.
pub fn lower_type(t: &ast::FieldType, db: &ParserDatabase) -> (r: Result<FieldType, LoweringError>)
    ensures
        ok_view(r) == lowered_type(*t, *db),
    decreases t, 1nat,
{
    let constraints = extract_constraints(t.attributes());
    let base = match t {
        ast::FieldType::Primitive(arity, p, _, _) => under_arity(FieldType::Primitive(*p), *arity),
        ast::FieldType::Literal(arity, l, _, _) => under_arity(
            FieldType::Literal(l.duplicate()),
            *arity,
        ),
        ast::FieldType::Symbol(arity, name, span, _) => match lower_symbol(db, name, *span) {
            Ok(s) => under_arity(s, *arity),
            Err(e) => {
                return Err(e);
            },
        },
        ast::FieldType::List(arity, elem, dims, _, _) => {
            let mut repr = match lower_type(elem, db) {
                Ok(e) => e,
                Err(e) => {
                    return Err(e);
                },
            };
            let ghost element = repr@;
            let mut k: u32 = 0;
            while k < *dims
                invariant
                    k <= *dims,
                    repr@ == nested_list(element, k as nat),
                decreases *dims - k,
            {
                repr = FieldType::List(Box::new(repr));
                k += 1;
            }
            under_arity(repr, *arity)
        },
        ast::FieldType::Mapping(arity, kv, _, _) => {
            let k = match lower_type(&kv.0, db) {
                Ok(k) => k,
                Err(e) => {
                    return Err(e);
                },
            };
            let v = match lower_type(&kv.1, db) {
                Ok(v) => v,
                Err(e) => {
                    return Err(e);
                },
            };
            under_arity(FieldType::Mapping(Box::new(k), Box::new(v)), *arity)
        },
        ast::FieldType::Union(arity, ts, _, _) => {
            let mut members = match lower_members(ts, db, Ghost(*t)) {
                Ok(ms) => ms,
                Err(e) => {
                    return Err(e);
                },
            };
            let ghost written = field_type_views(members@);
            if arity.is_optional() {
                members.push(FieldType::Primitive(TypeValue::Null));
                assert(field_type_views(members@) =~= written.push(
                    FieldTypeView::Primitive(TypeValue::Null),
                ));
            }
            let ghost all = field_type_views(members@);
            let r = FieldType::Union(members);
            assert(r@->Union_0 =~= all);
            r
        },
        ast::FieldType::Tuple(arity, ts, _, _) => {
            let members = match lower_members(ts, db, Ghost(*t)) {
                Ok(ms) => ms,
                Err(e) => {
                    return Err(e);
                },
            };
            let ghost written = field_type_views(members@);
            let r = FieldType::Tuple(members);
            assert(r@->Tuple_0 =~= written);
            under_arity(r, *arity)
        },
    };
    Ok(under_constraints(base, constraints))
}

} // verus!
