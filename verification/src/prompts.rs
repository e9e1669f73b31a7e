//! The type check of the expressions in the prompts of functions.
//!
//! The expressions of a prompt are checked against what is known in a prompt,
//! the classes of the schema and the parameters of the function. A class field
//! or a parameter whose declared type does not lower has the unknown type
//! here; that it does not lower is reported where declarations are checked.
use vstd::prelude::*;
use crate::ast;
use crate::ast::ParserDatabase;
use crate::ast::Span;
use crate::collections::with_entry;
use crate::evaluate_type::errors::TypeError;
use crate::evaluate_type::errors::TypeErrorView;
use crate::evaluate_type::expr::evaluate_type;
use crate::evaluate_type::expr::inferred;
use crate::evaluate_type::registry::builtin;
use crate::evaluate_type::registry::typed_names;
use crate::evaluate_type::registry::PredefinedTypes;
use crate::evaluate_type::registry::PredefinedTypesView;
use crate::evaluate_type::types::merged;
use crate::evaluate_type::types::type_views;
use crate::evaluate_type::types::Type;
use crate::evaluate_type::types::TypeView;
use crate::evaluate_type::JinjaContext;
use crate::lowering::lower_type;
use crate::lowering::lowered_type;
use crate::seqs::concat_all;
use crate::seqs::views;
use crate::types::FieldType;
use crate::types::FieldTypeView;
use crate::types::TypeValue;

verus! {

/// The type that a value of a field type has in an expression.
///
/// Strings, numbers, booleans and literals keep their type, and null is
/// `none`. A class is a reference to the class and an enum value is a string.
/// Optional types, lists and unions keep their shape, and a constrained type is
/// its base. Media, maps and tuples have the unknown type.
pub open spec fn expression_type(t: FieldTypeView) -> TypeView
    decreases t,
{
    match t {
        FieldTypeView::Primitive(TypeValue::String) => TypeView::String,
        FieldTypeView::Primitive(TypeValue::Int) => TypeView::Int,
        FieldTypeView::Primitive(TypeValue::Float) => TypeView::Float,
        FieldTypeView::Primitive(TypeValue::Bool) => TypeView::Bool,
        FieldTypeView::Primitive(TypeValue::Null) => TypeView::NoneType,
        FieldTypeView::Primitive(TypeValue::Media(_)) => TypeView::Unknown,
        FieldTypeView::Literal(l) => TypeView::Literal(l),
        FieldTypeView::Class(n) => TypeView::ClassRef(n),
        FieldTypeView::Enum(_) => TypeView::String,
        FieldTypeView::Optional(inner) => TypeView::Optional(Box::new(expression_type(*inner))),
        FieldTypeView::List(inner) => TypeView::List(Box::new(expression_type(*inner))),
        FieldTypeView::Mapping(_, _) => TypeView::Unknown,
        FieldTypeView::Union(ts) => merged(expression_types(ts)),
        FieldTypeView::Tuple(_) => TypeView::Unknown,
        FieldTypeView::Constrained { base, .. } => expression_type(*base),
    }
}

/// The types that values of some field types have in an expression.
pub open spec fn expression_types(ts: Seq<FieldTypeView>) -> Seq<TypeView>
    decreases ts,
{
    Seq::new(
        ts.len(),
        |i: int|
            if 0 <= i < ts.len() {
                expression_type(ts[i])
            } else {
                TypeView::Unknown
            },
    )
}

/// The type that a value of a field type has in an expression.
pub fn type_in_expressions(t: &FieldType) -> (r: Type)
    ensures
        r@ == expression_type(t@),
    decreases t,
{
    match t {
        FieldType::Primitive(TypeValue::String) => Type::String,
        FieldType::Primitive(TypeValue::Int) => Type::Int,
        FieldType::Primitive(TypeValue::Float) => Type::Float,
        FieldType::Primitive(TypeValue::Bool) => Type::Bool,
        FieldType::Primitive(TypeValue::Null) => Type::NoneType,
        FieldType::Primitive(TypeValue::Media(_)) => Type::Unknown,
        FieldType::Literal(l) => Type::Literal(l.duplicate()),
        FieldType::Class(n) => Type::ClassRef(n.clone()),
        FieldType::Enum(_) => Type::String,
        FieldType::Optional(inner) => Type::Optional(Box::new(type_in_expressions(inner))),
        FieldType::List(inner) => Type::List(Box::new(type_in_expressions(inner))),
        FieldType::Mapping(_, _) => Type::Unknown,
        FieldType::Union(ts) => {
            let mut members: Vec<Type> = Vec::new();
            let mut i: usize = 0;
            while i < ts.len()
                invariant
                    i <= ts.len(),
                    t@ is Union,
                    t@->Union_0.len() == ts@.len(),
                    forall|j: int| 0 <= j < ts@.len() ==> (#[trigger] t@->Union_0[j]) == ts@[j]@,
                    forall|j: int| 0 <= j < ts@.len() ==> decreases_to!(t => ts@[j]),
                    members@.len() == i,
                    forall|j: int|
                        0 <= j < i ==> (#[trigger] members@[j])@ == expression_type(
                            t@->Union_0[j],
                        ),
                decreases ts.len() - i,
            {
                members.push(type_in_expressions(&ts[i]));
                i += 1;
            }
            assert(type_views(members@) =~= expression_types(t@->Union_0));
            Type::merge(members)
        },
        FieldType::Tuple(_) => Type::Unknown,
        FieldType::Constrained { base, .. } => type_in_expressions(base),
    }
}

/// The type that a value of a declared type has in an expression; the unknown
/// type if the declared type does not lower.
pub open spec fn declared_type(t: ast::FieldType, db: ParserDatabase) -> TypeView {
    match lowered_type(t, db) {
        Ok(v) => expression_type(v),
        Err(_) => TypeView::Unknown,
    }
}

fn type_of_declared(t: &ast::FieldType, db: &ParserDatabase) -> (r: Type)
    ensures
        r@ == declared_type(*t, *db),
{
    match lower_type(t, db) {
        Ok(v) => type_in_expressions(&v),
        Err(_) => Type::Unknown,
    }
}

/// The type of a class field in an expression; the unknown type if the field
/// has no type.
pub open spec fn field_type_of(f: ast::FieldDecl, db: ParserDatabase) -> TypeView {
    match f.expr {
        Some(t) => declared_type(t, db),
        None => TypeView::Unknown,
    }
}

/// The fields of a class with their types in an expression.
pub open spec fn class_fields(c: ast::ClassDecl, db: ParserDatabase) -> Seq<(Seq<char>, TypeView)> {
    Seq::new(c.fields@.len(), |i: int| (c.fields@[i].name@, field_type_of(c.fields@[i], db)))
}

fn fields_of(c: &ast::ClassDecl, db: &ParserDatabase) -> (r: Vec<(String, Type)>)
    ensures
        typed_names(r@) == class_fields(*c, *db),
{
    let mut out: Vec<(String, Type)> = Vec::new();
    let mut i: usize = 0;
    while i < c.fields.len()
        invariant
            i <= c.fields.len(),
            typed_names(out@) =~= class_fields(*c, *db).take(i as int),
        decreases c.fields.len() - i,
    {
        let ghost before = out@;
        let t = match &c.fields[i].expr {
            Some(t) => type_of_declared(t, db),
            None => Type::Unknown,
        };
        let ghost entry = (c.fields@[i as int].name@, t@);
        out.push((c.fields[i].name.clone(), t));
        assert(typed_names(out@) =~= typed_names(before).push(entry));
        i += 1;
    }
    assert(class_fields(*c, *db).take(c.fields.len() as int) =~= class_fields(*c, *db));
    out
}

/// What is known after the first `n` classes of the schema were made known.
pub open spec fn with_classes(base: PredefinedTypesView, db: ParserDatabase, n: int) -> PredefinedTypesView
    decreases n,
{
    if n <= 0 {
        base
    } else {
        let known = with_classes(base, db, n - 1);
        PredefinedTypesView {
            classes: with_entry(
                known.classes,
                db.classes@[n - 1].name@,
                class_fields(db.classes@[n - 1], db),
            ),
            ..known
        }
    }
}

/// What is known after the first `n` parameters were made known as variables.
pub open spec fn with_inputs(
    base: PredefinedTypesView,
    args: Seq<ast::BlockArg>,
    db: ParserDatabase,
    n: int,
) -> PredefinedTypesView
    decreases n,
{
    if n <= 0 {
        base
    } else {
        let known = with_inputs(base, args, db, n - 1);
        PredefinedTypesView {
            variables: with_entry(
                known.variables,
                args[n - 1].name@,
                declared_type(args[n - 1].field_type, db),
            ),
            ..known
        }
    }
}

/// The parameters of a function; none where the function lacks its list.
pub open spec fn inputs_of(f: ast::FunctionDecl) -> Seq<ast::BlockArg> {
    match f.input {
        Some(args) => args@,
        None => Seq::empty(),
    }
}

/// What the expressions of the prompt of a function can refer to: what is
/// known in every prompt, the classes of the schema in declaration order, and
/// the parameters of the function as variables.
pub open spec fn prompt_registry(f: ast::FunctionDecl, db: ParserDatabase) -> PredefinedTypesView {
    with_inputs(
        with_classes(builtin(JinjaContext::Prompt), db, db.classes@.len() as int),
        inputs_of(f),
        db,
        inputs_of(f).len() as int,
    )
}

/// The registry for the expressions of the prompt of a function.
pub fn registry_for(f: &ast::FunctionDecl, db: &ParserDatabase) -> (r: PredefinedTypes)
    ensures
        r@ == prompt_registry(*f, *db),
{
    let mut types = PredefinedTypes::default(JinjaContext::Prompt);
    let ghost base = types@;
    let mut i: usize = 0;
    while i < db.classes.len()
        invariant
            i <= db.classes.len(),
            base == builtin(JinjaContext::Prompt),
            types@ == with_classes(base, *db, i as int),
        decreases db.classes.len() - i,
    {
        let fields = fields_of(&db.classes[i], db);
        types.add_class(db.classes[i].name.as_str(), fields);
        i += 1;
    }
    let ghost classed = types@;
    match &f.input {
        Some(args) => {
            let mut k: usize = 0;
            while k < args.len()
                invariant
                    k <= args.len(),
                    types@ == with_inputs(classed, args@, *db, k as int),
                decreases args.len() - k,
            {
                let t = type_of_declared(&args[k].field_type, db);
                types.add_variable(args[k].name.as_str(), t);
                k += 1;
            }
        },
        None => {},
    }
    types
}

/// What is wrong with one expression of the prompt of a function.
#[derive(Debug, PartialEq, Eq)]
pub struct PromptFinding {
    /// The name of the function.
    pub function: String,
    /// Where the function stands.
    pub span: Span,
    /// The position of the expression among those of the prompt.
    pub expression: usize,
    /// Everything that is wrong with the expression.
    pub errors: Vec<TypeError>,
}

/// Mathematical model of a [`PromptFinding`].
pub ghost struct PromptFindingView {
    pub function: Seq<char>,
    pub span: Span,
    pub expression: nat,
    pub errors: Seq<TypeErrorView>,
}

impl View for PromptFinding {
    type V = PromptFindingView;

    open spec fn view(&self) -> PromptFindingView {
        PromptFindingView {
            function: self.function@,
            span: self.span,
            expression: self.expression as nat,
            errors: views(self.errors@),
        }
    }
}

/// The findings for the first `n` expressions of the prompt of a function:
/// one for each expression that is ill-typed, with all its diagnostics.
pub open spec fn expression_findings(f: ast::FunctionDecl, db: ParserDatabase, n: int) -> Seq<
    PromptFindingView,
>
    decreases n,
{
    if n <= 0 {
        Seq::empty()
    } else {
        let rest = expression_findings(f, db, n - 1);
        let errors = inferred(f.prompt_expressions@[n - 1], prompt_registry(f, db)).errors;
        if errors.len() > 0 {
            rest.push(
                PromptFindingView {
                    function: f.name@,
                    span: f.span,
                    expression: (n - 1) as nat,
                    errors,
                },
            )
        } else {
            rest
        }
    }
}

/// The findings for the prompt of each function.
pub open spec fn prompt_parts(db: ParserDatabase) -> Seq<Seq<PromptFindingView>> {
    Seq::new(
        db.functions@.len(),
        |i: int|
            expression_findings(
                db.functions@[i],
                db,
                db.functions@[i].prompt_expressions@.len() as int,
            ),
    )
}

/// The findings for the prompts of the functions of a schema, function by
/// function in declaration order.
pub open spec fn prompt_findings(db: ParserDatabase) -> Seq<PromptFindingView> {
    concat_all(prompt_parts(db))
}

fn check_prompt(f: &ast::FunctionDecl, db: &ParserDatabase, findings: &mut Vec<PromptFinding>)
    ensures
        views(final(findings)@) == views(old(findings)@) + expression_findings(
            *f,
            *db,
            f.prompt_expressions@.len() as int,
        ),
{
    let ghost before = views(findings@);
    let types = registry_for(f, db);
    let mut n: usize = 0;
    assert(before =~= before + expression_findings(*f, *db, 0));
    while n < f.prompt_expressions.len()
        invariant
            n <= f.prompt_expressions.len(),
            types@ == prompt_registry(*f, *db),
            views(findings@) == before + expression_findings(*f, *db, n as int),
        decreases f.prompt_expressions.len() - n,
    {
        let ghost sofar = expression_findings(*f, *db, n as int);
        let ghost had = findings@;
        match evaluate_type(&f.prompt_expressions[n], &types) {
            Ok(_) => {},
            Err(errors) => {
                let finding = PromptFinding {
                    function: f.name.clone(),
                    span: f.span,
                    expression: n,
                    errors,
                };
                findings.push(finding);
                assert(views(findings@) =~= views(had).push(finding@));
                assert(views(findings@) =~= before + sofar.push(finding@));
            },
        }
        n += 1;
    }
}

/// Checks the expressions of the prompts of all functions.
///
/// Each expression is typed by [`evaluate_type`] against the
/// [`prompt_registry`] of its function; every ill-typed expression adds one
/// finding.
pub fn check_prompts(db: &ParserDatabase, findings: &mut Vec<PromptFinding>)
    ensures
        views(final(findings)@) == views(old(findings)@) + prompt_findings(*db),
{
    let ghost before = views(findings@);
    let ghost parts = prompt_parts(*db);
    let mut i: usize = 0;
    assert(before =~= before + concat_all(parts.take(0)));
    while i < db.functions.len()
        invariant
            i <= db.functions.len(),
            parts == prompt_parts(*db),
            views(findings@) == before + concat_all(parts.take(i as int)),
        decreases db.functions.len() - i,
    {
        let ghost sofar = concat_all(parts.take(i as int));
        proof {
            assert(parts.take(i + 1).drop_last() =~= parts.take(i as int));
            assert(parts.take(i + 1).last() == parts[i as int]);
        }
        check_prompt(&db.functions[i], db, findings);
        assert(views(findings@) =~= before + (sofar + parts[i as int]));
        i += 1;
    }
    assert(parts.take(db.functions.len() as int) =~= parts);
}

} // verus!
