//! Inference of the type of a template expression.
//!
//! Every part of an expression is looked at, whatever else is wrong with the
//! expression, and everything that is wrong is reported. A part that could not
//! be typed has the unknown type, which fits everywhere, so that one mistake is
//! reported once.
use vstd::prelude::*;
use crate::collections::lookup;
use crate::evaluate_type::errors::diagnostic;
use crate::evaluate_type::errors::ErrorKind;
use crate::evaluate_type::errors::ErrorKindView;
use crate::evaluate_type::errors::TypeError;
use crate::evaluate_type::errors::TypeErrorView;
use crate::evaluate_type::registry::find_name;
use crate::evaluate_type::registry::keys;
use crate::evaluate_type::registry::lemma_position_first;
use crate::evaluate_type::registry::resolved;
use crate::evaluate_type::registry::variable_suggestions;
use crate::evaluate_type::suggest::close_matches;
use crate::evaluate_type::suggest::find_close_matches;
use crate::sorting::sort_by_name;
use crate::sorting::stable_sort;
use crate::text::eq_str;
use crate::evaluate_type::registry::typed_names;
use crate::evaluate_type::registry::PredefinedTypes;
use crate::evaluate_type::registry::PredefinedTypesView;
use crate::evaluate_type::suggest::suggest;
use crate::evaluate_type::suggest::suggested;
use crate::evaluate_type::types::accepts_none;
use crate::evaluate_type::types::merged;
use crate::evaluate_type::types::subtype;
use crate::evaluate_type::types::type_views;
use crate::evaluate_type::types::Type;
use crate::evaluate_type::types::TypeView;
use crate::seqs::views;
use crate::text::signed_decimal;
use crate::text::string_views;
use crate::types::LiteralValue;
use crate::seqs::concat_all;
use crate::text::signed_decimal_digits;
use crate::types::LiteralValueView;

verus! {

/// A constant in an expression.
#[derive(Debug, PartialEq, Eq)]
pub enum Const {
    /// `none`
    NoneValue,
    Bool(bool),
    Int(i64),
    /// A number that is not an integer, as written.
    Float(String),
    String(String),
    /// Any other constant.
    Other,
}

/// An operator with one operand.
#[derive(Clone, Copy, Debug, PartialEq, Eq, Structural)]
pub enum UnaryOpKind {
    Not,
    Neg,
}

/// An operator with two operands.
#[derive(Clone, Copy, Debug, PartialEq, Eq, Structural)]
pub enum BinOpKind {
    Eq,
    Ne,
    Lt,
    Lte,
    Gt,
    Gte,
    ScAnd,
    ScOr,
    Add,
    Sub,
    Mul,
    Div,
    FloorDiv,
    Rem,
    Pow,
    Concat,
    In,
}

/// A parsed template expression.
#[derive(Debug, PartialEq, Eq)]
pub enum Expr {
    Var(String),
    Const(Const),
    Slice { expr: Box<Expr>, start: Option<Box<Expr>>, stop: Option<Box<Expr>>, step: Option<Box<Expr>> },
    UnaryOp { op: UnaryOpKind, expr: Box<Expr> },
    BinOp { op: BinOpKind, left: Box<Expr>, right: Box<Expr> },
    /// `true_expr if test_expr else false_expr`
    IfExpr { test_expr: Box<Expr>, true_expr: Box<Expr>, false_expr: Option<Box<Expr>> },
    Filter { name: String, expr: Option<Box<Expr>>, args: Vec<Expr> },
    Test { name: String, expr: Box<Expr>, args: Vec<Expr> },
    GetAttr { expr: Box<Expr>, name: String },
    GetItem { expr: Box<Expr>, subscript_expr: Box<Expr> },
    /// A call; named arguments stand in `Kwargs` among the arguments.
    Call { expr: Box<Expr>, args: Vec<Expr> },
    List { items: Vec<Expr> },
    Dict { keys: Vec<Expr>, values: Vec<Expr> },
    Kwargs { pairs: Vec<(String, Expr)> },
}

/// What inference finds out about an expression: its type, and what is wrong
/// with it.
pub ghost struct Inference {
    pub ty: TypeView,
    pub errors: Seq<TypeErrorView>,
}

/// The type of a constant: literals have the type of their value.
pub open spec fn const_type(c: Const) -> TypeView {
    match c {
        Const::NoneValue => TypeView::NoneType,
        Const::Bool(b) => TypeView::Literal(LiteralValueView::Bool(b)),
        Const::Int(i) => TypeView::Literal(LiteralValueView::Int(i as int)),
        Const::Float(_) => TypeView::Float,
        Const::String(s) => TypeView::Literal(LiteralValueView::String(s@)),
        Const::Other => TypeView::Unknown,
    }
}

/// The type of the result of an operator with two operands: a number for
/// arithmetic, a boolean for comparisons and membership, a string for
/// concatenation, and one of the operands for `and` and `or`.
pub open spec fn binop_type(op: BinOpKind, left: TypeView, right: TypeView) -> TypeView {
    match op {
        BinOpKind::Add | BinOpKind::Sub | BinOpKind::Mul | BinOpKind::Div | BinOpKind::FloorDiv
        | BinOpKind::Rem | BinOpKind::Pow => TypeView::Number,
        BinOpKind::Eq | BinOpKind::Ne | BinOpKind::Lt | BinOpKind::Lte | BinOpKind::Gt
        | BinOpKind::Gte | BinOpKind::In => TypeView::Bool,
        BinOpKind::Concat => TypeView::String,
        BinOpKind::ScAnd | BinOpKind::ScOr => merged(seq![left, right]),
    }
}

/// How a constant shows in messages.
pub open spec fn rendered_const(c: Const) -> Seq<char> {
    match c {
        Const::NoneValue => "none"@,
        Const::Bool(b) => if b {
            "true"@
        } else {
            "false"@
        },
        Const::Int(i) => signed_decimal_digits(i as int),
        Const::Float(s) => s@,
        Const::String(s) => "\""@ + s@ + "\""@,
        Const::Other => "<const>"@,
    }
}

/// How an expression shows in messages.
pub open spec fn rendered(e: Expr) -> Seq<char>
    decreases e,
{
    match e {
        Expr::Var(name) => name@,
        Expr::Const(c) => rendered_const(c),
        Expr::GetAttr { expr, name } => rendered(*expr) + "."@ + name@,
        Expr::GetItem { expr, subscript_expr } => rendered(*expr) + "["@ + rendered(
            *subscript_expr,
        ) + "]"@,
        Expr::Call { expr, args } => rendered(*expr) + "(...)"@,
        _ => "<expression>"@,
    }
}

/// One diagnostic of the given kind.
pub open spec fn one_error(kind: ErrorKindView) -> Seq<TypeErrorView> {
    seq![diagnostic(kind)]
}

/// The type of a name: what it stands for, or the unknown type with a
/// diagnostic that suggests the names that the context binds and the nearest
/// known variables.
pub open spec fn variable(types: PredefinedTypesView, name: Seq<char>) -> Inference {
    match resolved(types, name) {
        Some(t) => Inference { ty: t, errors: Seq::empty() },
        None => Inference {
            ty: TypeView::Unknown,
            errors: one_error(
                ErrorKindView::UnresolvedVariable {
                    name,
                    suggestions: variable_suggestions(types, name),
                },
            ),
        },
    }
}

/// The type of a property of a value of type `parent`, where `shown` is how
/// the value shows in messages.
///
/// A value of a known class has the properties of the class; a property that
/// the class lacks is reported with the nearest fields of the class. A value of
/// unknown type has properties of unknown type. Any other value has none.
pub open spec fn property(
    types: PredefinedTypesView,
    shown: Seq<char>,
    parent: TypeView,
    name: Seq<char>,
) -> Inference {
    match parent {
        TypeView::ClassRef(class) => match lookup(types.classes, class) {
            None => Inference {
                ty: TypeView::Unknown,
                errors: one_error(ErrorKindView::ClassNotDefined { class }),
            },
            Some(fields) => match lookup(fields, name) {
                Some(t) => Inference { ty: t, errors: Seq::empty() },
                None => Inference {
                    ty: TypeView::Unknown,
                    errors: one_error(
                        ErrorKindView::PropertyNotDefined {
                            variable: shown,
                            class,
                            property: name,
                            suggestions: suggested(keys(fields), name),
                        },
                    ),
                },
            },
        },
        TypeView::Unknown => Inference { ty: TypeView::Unknown, errors: Seq::empty() },
        other => Inference {
            ty: TypeView::Unknown,
            errors: one_error(
                ErrorKindView::InvalidType { expression: shown, got: other, expected: "class"@ },
            ),
        },
    }
}

/// How many parameters at the end of the list accept `none`.
pub open spec fn trailing_optional(params: Seq<(Seq<char>, TypeView)>) -> nat
    decreases params.len(),
{
    if params.len() == 0 {
        0
    } else if accepts_none(params.last().1) {
        1 + trailing_optional(params.drop_last())
    } else {
        0
    }
}

/// What is wrong with the argument of a parameter, if anything: an argument
/// of a type that does not fit, or no argument where one is needed. The first
/// parameters take the positional arguments; the others take the arguments of
/// their names.
pub open spec fn parameter_errors(
    function: Seq<char>,
    param: (Seq<char>, TypeView),
    index: int,
    positional: Seq<TypeView>,
    named: Seq<(Seq<char>, TypeView)>,
) -> Seq<TypeErrorView> {
    let given = if 0 <= index < positional.len() {
        Some(positional[index])
    } else {
        lookup(named, param.0)
    };
    match given {
        Some(got) => if subtype(got, param.1) {
            Seq::empty()
        } else {
            one_error(
                ErrorKindView::WrongArgType {
                    function,
                    argument: param.0,
                    expected: param.1,
                    got,
                },
            )
        },
        None => if accepts_none(param.1) {
            Seq::empty()
        } else {
            one_error(ErrorKindView::MissingArg { function, argument: param.0 })
        },
    }
}

/// What is wrong with the arguments of the first `n` parameters.
pub open spec fn parameters_errors(
    function: Seq<char>,
    params: Seq<(Seq<char>, TypeView)>,
    positional: Seq<TypeView>,
    named: Seq<(Seq<char>, TypeView)>,
    n: int,
) -> Seq<TypeErrorView>
    decreases n,
{
    if n <= 0 {
        Seq::empty()
    } else {
        parameters_errors(function, params, positional, named, n - 1) + parameter_errors(
            function,
            params[n - 1],
            n - 1,
            positional,
            named,
        )
    }
}

/// The names of those of the first `n` parameters that got no argument.
pub open spec fn unused_parameters(
    params: Seq<(Seq<char>, TypeView)>,
    positional: Seq<TypeView>,
    named: Seq<(Seq<char>, TypeView)>,
    n: int,
) -> Seq<Seq<char>>
    decreases n,
{
    if n <= 0 {
        Seq::empty()
    } else {
        let rest = unused_parameters(params, positional, named, n - 1);
        if n - 1 < positional.len() || lookup(named, params[n - 1].0) is Some {
            rest
        } else {
            rest.push(params[n - 1].0)
        }
    }
}

/// The name of the function that formats the expected output. An argument
/// that it does not know is answered with all that it knows.
pub open spec fn output_format() -> Seq<char> {
    "baml::OutputFormat"@
}

/// The names to suggest for a named argument that names no parameter.
///
/// For the function that formats the expected output: the one parameter that
/// is a close match of the name, if there is exactly one; otherwise the names
/// of all its parameters, in lexicographic order. For every other function:
/// the three nearest of the parameters that got no argument, in lexicographic
/// order.
pub open spec fn argument_suggestions(
    function: Seq<char>,
    params: Seq<(Seq<char>, TypeView)>,
    positional: Seq<TypeView>,
    named: Seq<(Seq<char>, TypeView)>,
    name: Seq<char>,
) -> Seq<Seq<char>> {
    if function == output_format() {
        let close = close_matches(keys(params), name);
        if close.len() == 1 {
            close
        } else {
            stable_sort::<String>(keys(params))
        }
    } else {
        suggested(unused_parameters(params, positional, named, params.len() as int), name)
    }
}

/// The diagnostics for those of the first `n` named arguments that name no
/// parameter, each with its [`argument_suggestions`].
pub open spec fn unknown_arguments(
    function: Seq<char>,
    params: Seq<(Seq<char>, TypeView)>,
    positional: Seq<TypeView>,
    named: Seq<(Seq<char>, TypeView)>,
    n: int,
) -> Seq<TypeErrorView>
    decreases n,
{
    if n <= 0 {
        Seq::empty()
    } else {
        let rest = unknown_arguments(function, params, positional, named, n - 1);
        if lookup(params, named[n - 1].0) is Some {
            rest
        } else {
            rest.push(
                diagnostic(
                    ErrorKindView::UnknownArg {
                        function,
                        argument: named[n - 1].0,
                        suggestions: argument_suggestions(
                            function,
                            params,
                            positional,
                            named,
                            named[n - 1].0,
                        ),
                    },
                ),
            )
        }
    }
}

/// A count as a machine word holds it: the greatest word if the count is
/// greater than that.
pub open spec fn saturated(n: nat) -> nat {
    if n > usize::MAX {
        usize::MAX as nat
    } else {
        n
    }
}

/// What is wrong with the arguments of a call.
///
/// The number of arguments must reach the parameters that do not accept
/// `none` at the end of the list, and not exceed the parameters; else that alone
/// is reported. Otherwise every parameter is checked in declaration order, and
/// then every named argument in the order written.
pub open spec fn binding_errors(
    function: Seq<char>,
    params: Seq<(Seq<char>, TypeView)>,
    positional: Seq<TypeView>,
    named: Seq<(Seq<char>, TypeView)>,
) -> Seq<TypeErrorView> {
    let total = positional.len() + named.len();
    if total < params.len() - trailing_optional(params) || total > params.len() {
        one_error(
            ErrorKindView::WrongArgCount {
                function,
                expected: params.len(),
                got: saturated(total),
            },
        )
    } else {
        parameters_errors(function, params, positional, named, params.len() as int)
            + unknown_arguments(function, params, positional, named, named.len() as int)
    }
}

/// The type of a call of a value of type `callee`, where `shown` is how the
/// value shows in messages.
///
/// A call of a known function has the return type of the function if nothing
/// is wrong with its arguments, and the unknown type otherwise. A call of a
/// value of unknown type has the unknown type. Nothing else can be called.
pub open spec fn called(
    types: PredefinedTypesView,
    shown: Seq<char>,
    callee: TypeView,
    positional: Seq<TypeView>,
    named: Seq<(Seq<char>, TypeView)>,
) -> Inference {
    match callee {
        TypeView::FunctionRef(function) => match lookup(types.functions, function) {
            None => Inference {
                ty: TypeView::Unknown,
                errors: one_error(ErrorKindView::FunctionNotDefined { function }),
            },
            Some(signature) => {
                let errors = binding_errors(function, signature.params, positional, named);
                Inference {
                    ty: if errors.len() == 0 {
                        signature.returns
                    } else {
                        TypeView::Unknown
                    },
                    errors,
                }
            },
        },
        TypeView::Unknown => Inference { ty: TypeView::Unknown, errors: Seq::empty() },
        other => Inference {
            ty: TypeView::Unknown,
            errors: one_error(
                ErrorKindView::InvalidType {
                    expression: shown,
                    got: other,
                    expected: "function"@,
                },
            ),
        },
    }
}

/// The types of a sequence of inferences.
pub open spec fn types_of(xs: Seq<Inference>) -> Seq<TypeView> {
    Seq::new(xs.len(), |i: int| xs[i].ty)
}

/// The diagnostics of a sequence of inferences, in order.
pub open spec fn errors_of(xs: Seq<Inference>) -> Seq<TypeErrorView> {
    concat_all(Seq::new(xs.len(), |i: int| xs[i].errors))
}

/// The positional arguments among the arguments of a call: the types of those
/// that are not named.
pub open spec fn positional_of(args: Seq<Expr>, xs: Seq<Inference>) -> Seq<TypeView>
    decreases args.len(),
{
    if args.len() == 0 || xs.len() != args.len() {
        Seq::empty()
    } else {
        let rest = positional_of(args.drop_last(), xs.drop_last());
        match args.last() {
            Expr::Kwargs { .. } => rest,
            _ => rest.push(xs.last().ty),
        }
    }
}

/// What inference finds out about an expression.
///
/// A conditional has the merged type of its two branches, both of which are
/// looked at; without an `else` the other branch is `none`. A list has the
/// merged type of its items as element type. Filters, items, slices and
/// dictionaries have the unknown type and tests are booleans, but their parts
/// are looked at.
pub open spec fn inferred(e: Expr, types: PredefinedTypesView) -> Inference
    decreases e, 0nat,
{
    match e {
        Expr::Var(name) => variable(types, name@),
        Expr::Const(c) => Inference { ty: const_type(c), errors: Seq::empty() },
        Expr::UnaryOp { op, expr } => Inference {
            ty: match op {
                UnaryOpKind::Not => TypeView::Bool,
                UnaryOpKind::Neg => TypeView::Number,
            },
            errors: inferred(*expr, types).errors,
        },
        Expr::BinOp { op, left, right } => {
            let l = inferred(*left, types);
            let r = inferred(*right, types);
            Inference { ty: binop_type(op, l.ty, r.ty), errors: l.errors + r.errors }
        },
        Expr::IfExpr { test_expr, true_expr, false_expr } => {
            let c = inferred(*test_expr, types);
            let t = inferred(*true_expr, types);
            let f = match false_expr {
                Some(f) => inferred(*f, types),
                None => Inference { ty: TypeView::NoneType, errors: Seq::empty() },
            };
            Inference { ty: merged(seq![t.ty, f.ty]), errors: c.errors + t.errors + f.errors }
        },
        Expr::GetAttr { expr, name } => {
            let parent = inferred(*expr, types);
            let found = property(types, rendered(*expr), parent.ty, name@);
            Inference { ty: found.ty, errors: parent.errors + found.errors }
        },
        Expr::Call { expr, args } => {
            let callee = inferred(*expr, types);
            let given = inferred_all(args@, types);
            let result = called(
                types,
                rendered(*expr),
                callee.ty,
                positional_of(args@, given),
                named_of(args@, types),
            );
            Inference { ty: result.ty, errors: callee.errors + errors_of(given) + result.errors }
        },
        Expr::List { items } => {
            let xs = inferred_all(items@, types);
            Inference { ty: TypeView::List(Box::new(merged(types_of(xs)))), errors: errors_of(xs) }
        },
        Expr::Dict { keys, values } => Inference {
            ty: TypeView::Unknown,
            errors: errors_of(inferred_all(keys@, types)) + errors_of(
                inferred_all(values@, types),
            ),
        },
        Expr::Kwargs { pairs } => Inference {
            ty: TypeView::Unknown,
            errors: errors_of(inferred_values(pairs@, types)),
        },
        Expr::Filter { name, expr, args } => Inference {
            ty: TypeView::Unknown,
            errors: match expr {
                Some(inner) => inferred(*inner, types).errors,
                None => Seq::empty(),
            } + errors_of(inferred_all(args@, types)),
        },
        Expr::Test { name, expr, args } => Inference {
            ty: TypeView::Bool,
            errors: inferred(*expr, types).errors + errors_of(inferred_all(args@, types)),
        },
        Expr::GetItem { expr, subscript_expr } => Inference {
            ty: TypeView::Unknown,
            errors: inferred(*expr, types).errors + inferred(*subscript_expr, types).errors,
        },
        Expr::Slice { expr, start, stop, step } => Inference {
            ty: TypeView::Unknown,
            errors: inferred(*expr, types).errors,
        },
    }
}

/// What inference finds out about each of a sequence of expressions.
pub open spec fn inferred_all(es: Seq<Expr>, types: PredefinedTypesView) -> Seq<Inference>
    decreases es, 1nat,
{
    Seq::new(
        es.len(),
        |i: int|
            if 0 <= i < es.len() {
                inferred(es[i], types)
            } else {
                Inference { ty: TypeView::Unknown, errors: Seq::empty() }
            },
    )
}

/// What inference finds out about the value of each named argument.
pub open spec fn inferred_values(pairs: Seq<(String, Expr)>, types: PredefinedTypesView) -> Seq<
    Inference,
>
    decreases pairs, 1nat,
{
    Seq::new(
        pairs.len(),
        |i: int|
            if 0 <= i < pairs.len() {
                inferred(pairs[i].1, types)
            } else {
                Inference { ty: TypeView::Unknown, errors: Seq::empty() }
            },
    )
}

/// The named arguments with the types of their values.
pub open spec fn named_values(pairs: Seq<(String, Expr)>, types: PredefinedTypesView) -> Seq<
    (Seq<char>, TypeView),
>
    decreases pairs, 1nat,
{
    Seq::new(
        pairs.len(),
        |i: int|
            if 0 <= i < pairs.len() {
                (pairs[i].0@, inferred(pairs[i].1, types).ty)
            } else {
                (Seq::empty(), TypeView::Unknown)
            },
    )
}

/// The named arguments that one argument of a call holds, with their types.
pub open spec fn named_in(arg: Expr, types: PredefinedTypesView) -> Seq<(Seq<char>, TypeView)>
    decreases arg, 2nat,
{
    match arg {
        Expr::Kwargs { pairs } => named_values(pairs@, types),
        _ => Seq::empty(),
    }
}

/// The named arguments that each argument of a call holds.
pub open spec fn named_parts(args: Seq<Expr>, types: PredefinedTypesView) -> Seq<
    Seq<(Seq<char>, TypeView)>,
>
    decreases args, 3nat,
{
    Seq::new(
        args.len(),
        |i: int|
            if 0 <= i < args.len() {
                named_in(args[i], types)
            } else {
                Seq::empty()
            },
    )
}

/// The named arguments among the arguments of a call, with their types, in
/// the order written.
pub open spec fn named_of(args: Seq<Expr>, types: PredefinedTypesView) -> Seq<
    (Seq<char>, TypeView),
>
    decreases args, 4nat,
{
    concat_all(named_parts(args, types))
}

/// The diagnostics of each of a sequence of inferences.
pub open spec fn error_parts(xs: Seq<Inference>) -> Seq<Seq<TypeErrorView>> {
    Seq::new(xs.len(), |i: int| xs[i].errors)
}

proof fn lemma_errors_of_step(xs: Seq<Inference>, i: int)
    requires
        0 <= i < xs.len(),
    ensures
        errors_of(xs.take(i + 1)) == errors_of(xs.take(i)) + xs[i].errors,
        errors_of(xs.take(0)) == Seq::<TypeErrorView>::empty(),
{
    assert(error_parts(xs.take(i + 1)).drop_last() =~= error_parts(xs.take(i)));
    assert(error_parts(xs.take(i + 1)).last() == xs[i].errors);
    assert(error_parts(xs.take(0)) =~= Seq::empty());
}

fn report(errors: &mut Vec<TypeError>, kind: ErrorKind)
    ensures
        views(final(errors)@) == views(old(errors)@) + one_error(kind@),
{
    let ghost before = errors@;
    let e = TypeError::new(kind);
    errors.push(e);
    assert(views(errors@) =~= views(before) + one_error(kind@));
}

fn render_const(c: &Const) -> (r: String)
    ensures
        r@ == rendered_const(*c),
{
    match c {
        Const::NoneValue => String::from_str("none"),
        Const::Bool(b) => if *b {
            String::from_str("true")
        } else {
            String::from_str("false")
        },
        Const::Int(i) => signed_decimal(*i),
        Const::Float(s) => s.clone(),
        Const::String(s) => {
            let mut out = String::from_str("\"");
            out.append(s.as_str());
            out.append("\"");
            out
        },
        Const::Other => String::from_str("<const>"),
    }
}

/// How an expression shows in messages.
pub fn render(e: &Expr) -> (r: String)
    ensures
        r@ == rendered(*e),
    decreases e,
{
    match e {
        Expr::Var(name) => name.clone(),
        Expr::Const(c) => render_const(c),
        Expr::GetAttr { expr, name } => {
            let mut out = render(expr);
            out.append(".");
            out.append(name.as_str());
            out
        },
        Expr::GetItem { expr, subscript_expr } => {
            let mut out = render(expr);
            out.append("[");
            let inner = render(subscript_expr);
            out.append(inner.as_str());
            out.append("]");
            out
        },
        Expr::Call { expr, args } => {
            let mut out = render(expr);
            out.append("(...)");
            out
        },
        _ => String::from_str("<expression>"),
    }
}

fn type_of_const(c: &Const) -> (r: Type)
    ensures
        r@ == const_type(*c),
{
    match c {
        Const::NoneValue => Type::NoneType,
        Const::Bool(b) => Type::Literal(LiteralValue::Bool(*b)),
        Const::Int(i) => Type::Literal(LiteralValue::Int(*i)),
        Const::Float(_) => Type::Float,
        Const::String(s) => Type::Literal(LiteralValue::String(s.clone())),
        Const::Other => Type::Unknown,
    }
}

fn merge_two(a: Type, b: Type) -> (r: Type)
    ensures
        r@ == merged(seq![a@, b@]),
{
    let mut both: Vec<Type> = Vec::new();
    let ghost x = a@;
    let ghost y = b@;
    both.push(a);
    both.push(b);
    assert(type_views(both@) =~= seq![x, y]);
    Type::merge(both)
}

fn type_of_binop(op: BinOpKind, left: Type, right: Type) -> (r: Type)
    ensures
        r@ == binop_type(op, left@, right@),
{
    match op {
        BinOpKind::Add | BinOpKind::Sub | BinOpKind::Mul | BinOpKind::Div | BinOpKind::FloorDiv
        | BinOpKind::Rem | BinOpKind::Pow => Type::Number,
        BinOpKind::Eq | BinOpKind::Ne | BinOpKind::Lt | BinOpKind::Lte | BinOpKind::Gt
        | BinOpKind::Gte | BinOpKind::In => Type::Bool,
        BinOpKind::Concat => Type::String,
        BinOpKind::ScAnd | BinOpKind::ScOr => merge_two(left, right),
    }
}

fn names_of(entries: &Vec<(String, Type)>) -> (r: Vec<String>)
    ensures
        string_views(r@) == keys(typed_names(entries@)),
{
    let mut out: Vec<String> = Vec::new();
    let mut i: usize = 0;
    while i < entries.len()
        invariant
            i <= entries.len(),
            string_views(out@) =~= keys(typed_names(entries@)).take(i as int),
        decreases entries.len() - i,
    {
        let ghost before = out@;
        out.push(entries[i].0.clone());
        assert(string_views(out@) =~= string_views(before).push(entries@[i as int].0@));
        i += 1;
    }
    assert(keys(typed_names(entries@)).take(entries.len() as int) =~= keys(
        typed_names(entries@),
    ));
    out
}

fn infer_variable(types: &PredefinedTypes, name: &String, errors: &mut Vec<TypeError>) -> (r: Type)
    ensures
        r@ == variable(types@, name@).ty,
        views(final(errors)@) == views(old(errors)@) + variable(types@, name@).errors,
{
    match types.resolve(name.as_str()) {
        Some(t) => {
            assert(views(errors@) =~= views(errors@) + Seq::<TypeErrorView>::empty());
            t
        },
        None => {
            let suggestions = types.suggest_variables(name.as_str());
            report(errors, ErrorKind::UnresolvedVariable { name: name.clone(), suggestions });
            Type::Unknown
        },
    }
}

fn infer_property(
    types: &PredefinedTypes,
    shown: String,
    parent: Type,
    name: &String,
    errors: &mut Vec<TypeError>,
) -> (r: Type)
    ensures
        r@ == property(types@, shown@, parent@, name@).ty,
        views(final(errors)@) == views(old(errors)@) + property(
            types@,
            shown@,
            parent@,
            name@,
        ).errors,
{
    let ghost before = views(errors@);
    match parent {
        Type::ClassRef(class) => match types.class_fields(class.as_str()) {
            None => {
                report(errors, ErrorKind::ClassNotDefined { class });
                Type::Unknown
            },
            Some(fields) => match find_name(fields, name.as_str()) {
                Some(p) => {
                    proof {
                        lemma_position_first(typed_names(fields@), name@, p as int);
                    }
                    assert(before =~= before + Seq::<TypeErrorView>::empty());
                    fields[p].1.duplicate()
                },
                None => {
                    proof {
                        lemma_position_first(typed_names(fields@), name@, fields@.len() as int);
                    }
                    let known = names_of(fields);
                    let suggestions = suggest(name.as_str(), &known);
                    report(
                        errors,
                        ErrorKind::PropertyNotDefined {
                            variable: shown,
                            class,
                            property: name.clone(),
                            suggestions,
                        },
                    );
                    Type::Unknown
                },
            },
        },
        Type::Unknown => {
            assert(before =~= before + Seq::<TypeErrorView>::empty());
            Type::Unknown
        },
        other => {
            report(
                errors,
                ErrorKind::InvalidType {
                    expression: shown,
                    got: other,
                    expected: String::from_str("class"),
                },
            );
            Type::Unknown
        },
    }
}

fn count_trailing_optional(params: &Vec<(String, Type)>) -> (r: usize)
    ensures
        r == trailing_optional(typed_names(params@)),
        r <= params@.len(),
{
    let ghost all = typed_names(params@);
    let mut k: usize = params.len();
    assert(all.take(k as int) =~= all);
    while k > 0 && params[k - 1].1.is_optional()
        invariant
            k <= params.len(),
            all == typed_names(params@),
            trailing_optional(all) == (params.len() - k) + trailing_optional(all.take(k as int)),
        decreases k,
    {
        assert(all.take(k as int).last() == all[k - 1]);
        assert(all.take(k as int).drop_last() =~= all.take(k - 1));
        k -= 1;
    }
    proof {
        if k > 0 {
            assert(all.take(k as int).last() == all[k - 1]);
        }
    }
    params.len() - k
}

fn check_parameters(
    function: &String,
    params: &Vec<(String, Type)>,
    positional: &Vec<Type>,
    named: &Vec<(String, Type)>,
    errors: &mut Vec<TypeError>,
)
    ensures
        views(final(errors)@) == views(old(errors)@) + parameters_errors(
            function@,
            typed_names(params@),
            type_views(positional@),
            typed_names(named@),
            params@.len() as int,
        ),
{
    let ghost before = views(errors@);
    let ghost ps = typed_names(params@);
    let ghost pos = type_views(positional@);
    let ghost nam = typed_names(named@);
    let mut i: usize = 0;
    assert(before =~= before + parameters_errors(function@, ps, pos, nam, 0));
    while i < params.len()
        invariant
            i <= params.len(),
            ps == typed_names(params@),
            pos == type_views(positional@),
            nam == typed_names(named@),
            views(errors@) == before + parameters_errors(function@, ps, pos, nam, i as int),
        decreases params.len() - i,
    {
        let ghost sofar = parameters_errors(function@, ps, pos, nam, i as int);
        let ghost here = parameter_errors(function@, ps[i as int], i as int, pos, nam);
        let expected = &params[i].1;
        let given: Option<&Type> = if i < positional.len() {
            assert(pos[i as int] == positional@[i as int]@);
            Some(&positional[i])
        } else {
            match find_name(named, params[i].0.as_str()) {
                Some(p) => {
                    proof {
                        lemma_position_first(nam, params@[i as int].0@, p as int);
                    }
                    Some(&named[p].1)
                },
                None => {
                    proof {
                        lemma_position_first(nam, params@[i as int].0@, named@.len() as int);
                    }
                    None
                },
            }
        };
        match given {
            Some(got) => {
                if !got.is_subtype_of(expected) {
                    report(
                        errors,
                        ErrorKind::WrongArgType {
                            function: function.clone(),
                            argument: params[i].0.clone(),
                            expected: expected.duplicate(),
                            got: got.duplicate(),
                        },
                    );
                }
            },
            None => {
                if !expected.is_optional() {
                    report(
                        errors,
                        ErrorKind::MissingArg {
                            function: function.clone(),
                            argument: params[i].0.clone(),
                        },
                    );
                }
            },
        }
        assert(views(errors@) =~= before + (sofar + here));
        i += 1;
    }
}

fn unused_names(
    params: &Vec<(String, Type)>,
    positional: &Vec<Type>,
    named: &Vec<(String, Type)>,
) -> (r: Vec<String>)
    ensures
        string_views(r@) == unused_parameters(
            typed_names(params@),
            type_views(positional@),
            typed_names(named@),
            params@.len() as int,
        ),
{
    let ghost ps = typed_names(params@);
    let ghost pos = type_views(positional@);
    let ghost nam = typed_names(named@);
    let mut out: Vec<String> = Vec::new();
    let mut i: usize = 0;
    assert(string_views(out@) =~= unused_parameters(ps, pos, nam, 0));
    while i < params.len()
        invariant
            i <= params.len(),
            ps == typed_names(params@),
            pos == type_views(positional@),
            nam == typed_names(named@),
            string_views(out@) == unused_parameters(ps, pos, nam, i as int),
        decreases params.len() - i,
    {
        let ghost before = out@;
        if i >= positional.len() {
            match find_name(named, params[i].0.as_str()) {
                Some(p) => {
                    proof {
                        lemma_position_first(nam, params@[i as int].0@, p as int);
                    }
                },
                None => {
                    proof {
                        lemma_position_first(nam, params@[i as int].0@, named@.len() as int);
                    }
                    out.push(params[i].0.clone());
                    assert(string_views(out@) =~= string_views(before).push(
                        params@[i as int].0@,
                    ));
                },
            }
        }
        i += 1;
    }
    out
}

fn suggest_arguments(
    function: &String,
    params: &Vec<(String, Type)>,
    unused: &Vec<String>,
    name: &String,
    Ghost(positional): Ghost<Seq<TypeView>>,
    Ghost(named): Ghost<Seq<(Seq<char>, TypeView)>>,
) -> (r: Vec<String>)
    requires
        string_views(unused@) == unused_parameters(
            typed_names(params@),
            positional,
            named,
            params@.len() as int,
        ),
    ensures
        string_views(r@) == argument_suggestions(
            function@,
            typed_names(params@),
            positional,
            named,
            name@,
        ),
{
    if eq_str(function, "baml::OutputFormat") {
        let options = names_of(params);
        let close = find_close_matches(name.as_str(), &options);
        if close.len() == 1 {
            close
        } else {
            assert(views(options@) =~= string_views(options@));
            let sorted = sort_by_name(options);
            assert(views(sorted@) =~= string_views(sorted@));
            sorted
        }
    } else {
        suggest(name.as_str(), unused)
    }
}

fn check_named(
    function: &String,
    params: &Vec<(String, Type)>,
    positional: &Vec<Type>,
    named: &Vec<(String, Type)>,
    errors: &mut Vec<TypeError>,
)
    ensures
        views(final(errors)@) == views(old(errors)@) + unknown_arguments(
            function@,
            typed_names(params@),
            type_views(positional@),
            typed_names(named@),
            named@.len() as int,
        ),
{
    let ghost before = views(errors@);
    let ghost ps = typed_names(params@);
    let ghost pos = type_views(positional@);
    let ghost nam = typed_names(named@);
    let unused = unused_names(params, positional, named);
    let mut k: usize = 0;
    assert(before =~= before + unknown_arguments(function@, ps, pos, nam, 0));
    while k < named.len()
        invariant
            k <= named.len(),
            ps == typed_names(params@),
            pos == type_views(positional@),
            nam == typed_names(named@),
            string_views(unused@) == unused_parameters(ps, pos, nam, params@.len() as int),
            views(errors@) == before + unknown_arguments(function@, ps, pos, nam, k as int),
        decreases named.len() - k,
    {
        let ghost sofar = unknown_arguments(function@, ps, pos, nam, k as int);
        assert(nam[k as int].0 == named@[k as int].0@);
        match find_name(params, named[k].0.as_str()) {
            Some(p) => {
                proof {
                    lemma_position_first(ps, named@[k as int].0@, p as int);
                }
            },
            None => {
                proof {
                    lemma_position_first(ps, named@[k as int].0@, params@.len() as int);
                }
                let suggestions = suggest_arguments(
                    function,
                    params,
                    &unused,
                    &named[k].0,
                    Ghost(pos),
                    Ghost(nam),
                );
                let kind = ErrorKind::UnknownArg {
                    function: function.clone(),
                    argument: named[k].0.clone(),
                    suggestions,
                };
                report(errors, kind);
                assert(views(errors@) =~= before + sofar.push(diagnostic(kind@)));
            },
        }
        k += 1;
    }
}

fn bind_arguments(
    function: &String,
    params: &Vec<(String, Type)>,
    positional: &Vec<Type>,
    named: &Vec<(String, Type)>,
    errors: &mut Vec<TypeError>,
) -> (clean: bool)
    ensures
        views(final(errors)@) == views(old(errors)@) + binding_errors(
            function@,
            typed_names(params@),
            type_views(positional@),
            typed_names(named@),
        ),
        clean == (binding_errors(
            function@,
            typed_names(params@),
            type_views(positional@),
            typed_names(named@),
        ).len() == 0),
{
    let ghost before = views(errors@);
    let optional = count_trailing_optional(params);
    let required = params.len() - optional;
    let too_few = positional.len() < required && named.len() < required - positional.len();
    let too_many = positional.len() > params.len() || named.len() > params.len()
        - positional.len();
    let count_before = errors.len();
    if too_few || too_many {
        let got = if positional.len() <= usize::MAX - named.len() {
            positional.len() + named.len()
        } else {
            usize::MAX
        };
        report(
            errors,
            ErrorKind::WrongArgCount { function: function.clone(), expected: params.len(), got },
        );
        false
    } else {
        check_parameters(function, params, positional, named, errors);
        let ghost middle = views(errors@);
        check_named(function, params, positional, named, errors);
        assert(views(errors@) =~= before + binding_errors(
            function@,
            typed_names(params@),
            type_views(positional@),
            typed_names(named@),
        ));
        errors.len() == count_before
    }
}

fn check_call(
    types: &PredefinedTypes,
    shown: String,
    callee: Type,
    positional: &Vec<Type>,
    named: &Vec<(String, Type)>,
    errors: &mut Vec<TypeError>,
) -> (r: Type)
    ensures
        r@ == called(types@, shown@, callee@, type_views(positional@), typed_names(named@)).ty,
        views(final(errors)@) == views(old(errors)@) + called(
            types@,
            shown@,
            callee@,
            type_views(positional@),
            typed_names(named@),
        ).errors,
{
    let ghost before = views(errors@);
    match callee {
        Type::FunctionRef(function) => match types.signature(function.as_str()) {
            None => {
                report(errors, ErrorKind::FunctionNotDefined { function });
                Type::Unknown
            },
            Some(signature) => {
                if bind_arguments(&function, &signature.params, positional, named, errors) {
                    signature.returns.duplicate()
                } else {
                    Type::Unknown
                }
            },
        },
        Type::Unknown => {
            assert(before =~= before + Seq::<TypeErrorView>::empty());
            Type::Unknown
        },
        other => {
            report(
                errors,
                ErrorKind::InvalidType {
                    expression: shown,
                    got: other,
                    expected: String::from_str("function"),
                },
            );
            Type::Unknown
        },
    }
}

fn infer_all(es: &Vec<Expr>, types: &PredefinedTypes, errors: &mut Vec<TypeError>) -> (r: Vec<Type>)
    ensures
        type_views(r@) == types_of(inferred_all(es@, types@)),
        views(final(errors)@) == views(old(errors)@) + errors_of(inferred_all(es@, types@)),
    decreases es, 1nat,
{
    let ghost before = views(errors@);
    let ghost xs = inferred_all(es@, types@);
    let mut out: Vec<Type> = Vec::new();
    let mut i: usize = 0;
    proof {
        if es@.len() > 0 {
            lemma_errors_of_step(xs, 0);
        } else {
            assert(error_parts(xs) =~= Seq::empty());
        }
        assert(before =~= before + errors_of(xs.take(0))) by {
            assert(error_parts(xs.take(0)) =~= Seq::empty());
        }
    }
    while i < es.len()
        invariant
            i <= es.len(),
            xs == inferred_all(es@, types@),
            out@.len() == i,
            forall|j: int| 0 <= j < i ==> (#[trigger] out@[j])@ == xs[j].ty,
            views(errors@) == before + errors_of(xs.take(i as int)),
        decreases es.len() - i,
    {
        let ghost sofar = errors_of(xs.take(i as int));
        proof {
            lemma_errors_of_step(xs, i as int);
        }
        let t = infer(&es[i], types, errors);
        out.push(t);
        assert(views(errors@) =~= before + (sofar + xs[i as int].errors));
        i += 1;
    }
    assert(xs.take(es.len() as int) =~= xs);
    assert(type_views(out@) =~= types_of(xs));
    out
}

fn infer_values(pairs: &Vec<(String, Expr)>, types: &PredefinedTypes, errors: &mut Vec<TypeError>) -> (r:
    Vec<(String, Type)>)
    ensures
        typed_names(r@) == named_values(pairs@, types@),
        views(final(errors)@) == views(old(errors)@) + errors_of(
            inferred_values(pairs@, types@),
        ),
    decreases pairs, 1nat,
{
    let ghost before = views(errors@);
    let ghost xs = inferred_values(pairs@, types@);
    let mut out: Vec<(String, Type)> = Vec::new();
    let mut i: usize = 0;
    proof {
        assert(before =~= before + errors_of(xs.take(0))) by {
            assert(error_parts(xs.take(0)) =~= Seq::empty());
        }
    }
    while i < pairs.len()
        invariant
            i <= pairs.len(),
            xs == inferred_values(pairs@, types@),
            out@.len() == i,
            forall|j: int|
                0 <= j < i ==> (#[trigger] out@[j]).0@ == pairs@[j].0@ && out@[j].1@ == xs[j].ty,
            views(errors@) == before + errors_of(xs.take(i as int)),
        decreases pairs.len() - i,
    {
        let ghost sofar = errors_of(xs.take(i as int));
        proof {
            lemma_errors_of_step(xs, i as int);
        }
        let t = infer(&pairs[i].1, types, errors);
        out.push((pairs[i].0.clone(), t));
        assert(views(errors@) =~= before + (sofar + xs[i as int].errors));
        i += 1;
    }
    assert(xs.take(pairs.len() as int) =~= xs);
    assert(typed_names(out@) =~= named_values(pairs@, types@));
    out
}

fn infer_arguments(args: &Vec<Expr>, types: &PredefinedTypes, errors: &mut Vec<TypeError>) -> (r: (
    Vec<Type>,
    Vec<(String, Type)>,
))
    ensures
        type_views(r.0@) == positional_of(args@, inferred_all(args@, types@)),
        typed_names(r.1@) == named_of(args@, types@),
        views(final(errors)@) == views(old(errors)@) + errors_of(inferred_all(args@, types@)),
    decreases args, 1nat,
{
    let ghost before = views(errors@);
    let ghost xs = inferred_all(args@, types@);
    let ghost parts = named_parts(args@, types@);
    let mut positional: Vec<Type> = Vec::new();
    let mut named: Vec<(String, Type)> = Vec::new();
    let mut i: usize = 0;
    proof {
        assert(before =~= before + errors_of(xs.take(0))) by {
            assert(error_parts(xs.take(0)) =~= Seq::empty());
        }
        assert(args@.take(0) =~= Seq::empty());
        assert(type_views(positional@) =~= positional_of(args@.take(0), xs.take(0)));
        assert(parts.take(0) =~= Seq::empty());
        assert(typed_names(named@) =~= concat_all(parts.take(0)));
    }
    while i < args.len()
        invariant
            i <= args.len(),
            xs == inferred_all(args@, types@),
            parts == named_parts(args@, types@),
            type_views(positional@) == positional_of(args@.take(i as int), xs.take(i as int)),
            typed_names(named@) == concat_all(parts.take(i as int)),
            views(errors@) == before + errors_of(xs.take(i as int)),
        decreases args.len() - i,
    {
        let ghost sofar = errors_of(xs.take(i as int));
        let ghost had_positional = positional@;
        let ghost had_named = named@;
        proof {
            lemma_errors_of_step(xs, i as int);
            assert(args@.take(i + 1).drop_last() =~= args@.take(i as int));
            assert(xs.take(i + 1).drop_last() =~= xs.take(i as int));
            assert(args@.take(i + 1).last() == args@[i as int]);
            assert(xs.take(i + 1).last() == xs[i as int]);
            assert(parts.take(i + 1).drop_last() =~= parts.take(i as int));
            assert(parts.take(i + 1).last() == named_in(args@[i as int], types@));
        }
        match &args[i] {
            Expr::Kwargs { pairs } => {
                let mut values = infer_values(pairs, types, errors);
                let ghost added = values@;
                named.append(&mut values);
                assert(typed_names(named@) =~= typed_names(had_named) + typed_names(added));
            },
            other => {
                let t = infer(other, types, errors);
                positional.push(t);
                assert(type_views(positional@) =~= type_views(had_positional).push(t@));
                assert(typed_names(named@) =~= typed_names(had_named) + Seq::empty());
            },
        }
        assert(views(errors@) =~= before + (sofar + xs[i as int].errors));
        i += 1;
    }
    assert(args@.take(args.len() as int) =~= args@);
    assert(xs.take(args.len() as int) =~= xs);
    assert(parts.take(args.len() as int) =~= parts);
    (positional, named)
}

#[verifier::rlimit(30)]
fn infer(e: &Expr, types: &PredefinedTypes, errors: &mut Vec<TypeError>) -> (r: Type)
    ensures
        r@ == inferred(*e, types@).ty,
        views(final(errors)@) == views(old(errors)@) + inferred(*e, types@).errors,
    decreases e, 0nat,
{
    let ghost before = views(errors@);
    match e {
        Expr::Var(name) => infer_variable(types, name, errors),
        Expr::Const(c) => {
            assert(before =~= before + Seq::<TypeErrorView>::empty());
            type_of_const(c)
        },
        Expr::UnaryOp { op, expr } => {
            let _ = infer(expr, types, errors);
            match op {
                UnaryOpKind::Not => Type::Bool,
                UnaryOpKind::Neg => Type::Number,
            }
        },
        Expr::BinOp { op, left, right } => {
            let l = infer(left, types, errors);
            let r = infer(right, types, errors);
            assert(views(errors@) =~= before + (inferred(**left, types@).errors + inferred(
                **right,
                types@,
            ).errors));
            type_of_binop(*op, l, r)
        },
        Expr::IfExpr { test_expr, true_expr, false_expr } => {
            let _ = infer(test_expr, types, errors);
            let t = infer(true_expr, types, errors);
            let f = match false_expr {
                Some(f) => infer(f, types, errors),
                None => Type::NoneType,
            };
            assert(views(errors@) =~= before + inferred(*e, types@).errors);
            merge_two(t, f)
        },
        Expr::GetAttr { expr, name } => {
            let parent = infer(expr, types, errors);
            let shown = render(expr);
            let r = infer_property(types, shown, parent, name, errors);
            assert(views(errors@) =~= before + inferred(*e, types@).errors);
            r
        },
        Expr::Call { expr, args } => {
            let callee = infer(expr, types, errors);
            let (positional, named) = infer_arguments(args, types, errors);
            let shown = render(expr);
            let r = check_call(types, shown, callee, &positional, &named, errors);
            assert(views(errors@) =~= before + inferred(*e, types@).errors);
            r
        },
        Expr::List { items } => {
            let ts = infer_all(items, types, errors);
            Type::List(Box::new(Type::merge(ts)))
        },
        Expr::Dict { keys, values } => {
            let _ = infer_all(keys, types, errors);
            let _ = infer_all(values, types, errors);
            assert(views(errors@) =~= before + inferred(*e, types@).errors);
            Type::Unknown
        },
        Expr::Kwargs { pairs } => {
            let _ = infer_values(pairs, types, errors);
            Type::Unknown
        },
        Expr::Filter { name, expr, args } => {
            match expr {
                Some(inner) => {
                    let _ = infer(inner, types, errors);
                },
                None => {
                    assert(before =~= before + Seq::<TypeErrorView>::empty());
                },
            }
            let _ = infer_all(args, types, errors);
            assert(views(errors@) =~= before + inferred(*e, types@).errors);
            Type::Unknown
        },
        Expr::Test { name, expr, args } => {
            let _ = infer(expr, types, errors);
            let _ = infer_all(args, types, errors);
            assert(views(errors@) =~= before + inferred(*e, types@).errors);
            Type::Bool
        },
        Expr::GetItem { expr, subscript_expr } => {
            let _ = infer(expr, types, errors);
            let _ = infer(subscript_expr, types, errors);
            assert(views(errors@) =~= before + inferred(*e, types@).errors);
            Type::Unknown
        },
        Expr::Slice { expr, start, stop, step } => {
            let _ = infer(expr, types, errors);
            Type::Unknown
        },
    }
}

/// Infers the type of an expression against a registry of known names.
///
/// The result is the type of the expression if nothing is wrong with it, and
/// otherwise every diagnostic, in the order in which the parts of the
/// expression are written. Both are exactly those of [`inferred`].
pub fn evaluate_type(expr: &Expr, types: &PredefinedTypes) -> (r: Result<Type, Vec<TypeError>>)
    ensures
        match r {
            Ok(t) => inferred(*expr, types@).errors.len() == 0 && t@ == inferred(
                *expr,
                types@,
            ).ty,
            Err(errors) => errors@.len() > 0 && views(errors@) == inferred(*expr, types@).errors,
        },
{
    let mut errors: Vec<TypeError> = Vec::new();
    assert(views(errors@) =~= Seq::<TypeErrorView>::empty());
    let t = infer(expr, types, &mut errors);
    assert(views(errors@) =~= inferred(*expr, types@).errors);
    if errors.len() == 0 {
        Ok(t)
    } else {
        Err(errors)
    }
}

} // verus!
