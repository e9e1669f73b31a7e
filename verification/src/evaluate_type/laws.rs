//! What holds of inference whatever the expression and the registry.
use vstd::prelude::*;
use crate::evaluate_type::errors::diagnostic;
use crate::evaluate_type::errors::ErrorKindView;
use crate::evaluate_type::expr::argument_suggestions;
use crate::evaluate_type::expr::called;
use crate::evaluate_type::expr::inferred;
use crate::evaluate_type::expr::one_error;
use crate::evaluate_type::expr::output_format;
use crate::evaluate_type::expr::Expr;
use crate::evaluate_type::expr::Inference;
use crate::evaluate_type::registry::keys;
use crate::evaluate_type::registry::lemma_context_names_offered;
use crate::evaluate_type::registry::resolved;
use crate::evaluate_type::registry::variable_suggestions;
use crate::evaluate_type::registry::PredefinedTypesView;
use crate::evaluate_type::suggest::close_matches;
use crate::evaluate_type::types::TypeView;
use crate::sorting::lemma_stable_sort_members;
use crate::sorting::lemma_stable_sort_sorted;
use crate::sorting::sorted_by_name;
use crate::sorting::stable_sort;

verus! {

/// The diagnostic for a name that nothing is known of.
pub open spec fn unresolved(types: PredefinedTypesView, name: Seq<char>) -> ErrorKindView {
    ErrorKindView::UnresolvedVariable { name, suggestions: variable_suggestions(types, name) }
}

/// A name that is neither a variable nor a function has the unknown type and
/// one diagnostic, which names it and suggests every name that the context
/// binds.
pub proof fn lemma_unknown_variable(name: String, types: PredefinedTypesView)
    requires
        resolved(types, name@) is None,
    ensures
        inferred(Expr::Var(name), types) == (Inference {
            ty: TypeView::Unknown,
            errors: one_error(unresolved(types, name@)),
        }),
        forall|offered: Seq<char>| #[trigger]
            types.context_names.contains(offered) ==> variable_suggestions(
                types,
                name@,
            ).contains(offered),
{
    assert forall|offered: Seq<char>| #[trigger]
        types.context_names.contains(offered) implies variable_suggestions(
        types,
        name@,
    ).contains(offered) by {
        lemma_context_names_offered(types, name@, offered);
    }
}

/// A property of a value of unknown type has the unknown type and adds no
/// diagnostic to those of the value.
pub proof fn lemma_property_of_unknown(e: Expr, name: String, types: PredefinedTypesView)
    requires
        inferred(e, types).ty is Unknown,
    ensures
        inferred(Expr::GetAttr { expr: Box::new(e), name }, types) == (Inference {
            ty: TypeView::Unknown,
            errors: inferred(e, types).errors,
        }),
{
    let whole = inferred(Expr::GetAttr { expr: Box::new(e), name }, types);
    assert(whole.errors =~= inferred(e, types).errors);
}

/// A call of a value of unknown type has the unknown type and adds no
/// diagnostic to those of the value and of the arguments.
pub proof fn lemma_call_of_unknown(
    shown: Seq<char>,
    positional: Seq<TypeView>,
    named: Seq<(Seq<char>, TypeView)>,
    types: PredefinedTypesView,
)
    ensures
        called(types, shown, TypeView::Unknown, positional, named) == (Inference {
            ty: TypeView::Unknown,
            errors: Seq::empty(),
        }),
{
}

/// A property of a name that is neither a variable nor a function gives
/// exactly one diagnostic: that the name does not exist. The access adds none,
/// and neither does an access to a property of the property.
pub proof fn lemma_property_of_unknown_variable(
    name: String,
    first: String,
    second: String,
    types: PredefinedTypesView,
)
    requires
        resolved(types, name@) is None,
    ensures
        inferred(
            Expr::GetAttr { expr: Box::new(Expr::Var(name)), name: first },
            types,
        ) == (Inference { ty: TypeView::Unknown, errors: one_error(unresolved(types, name@)) }),
        inferred(
            Expr::GetAttr {
                expr: Box::new(Expr::GetAttr { expr: Box::new(Expr::Var(name)), name: first }),
                name: second,
            },
            types,
        ) == (Inference { ty: TypeView::Unknown, errors: one_error(unresolved(types, name@)) }),
        one_error(unresolved(types, name@)).len() == 1,
        one_error(unresolved(types, name@))[0] == diagnostic(unresolved(types, name@)),
{
    lemma_unknown_variable(name, types);
    lemma_property_of_unknown(Expr::Var(name), first, types);
    lemma_property_of_unknown(
        Expr::GetAttr { expr: Box::new(Expr::Var(name)), name: first },
        second,
        types,
    );
}

/// An argument that the function that formats the expected output does not
/// know, and that is a close match of no parameter or of several, is answered
/// with the names of all parameters, in lexicographic order.
pub proof fn lemma_output_format_lists_every_option(
    params: Seq<(Seq<char>, TypeView)>,
    positional: Seq<TypeView>,
    named: Seq<(Seq<char>, TypeView)>,
    name: Seq<char>,
)
    requires
        close_matches(keys(params), name).len() != 1,
    ensures
        argument_suggestions(output_format(), params, positional, named, name) == stable_sort::<
            String,
        >(keys(params)),
        sorted_by_name::<String>(
            argument_suggestions(output_format(), params, positional, named, name),
        ),
        forall|i: int|
            0 <= i < params.len() ==> argument_suggestions(
                output_format(),
                params,
                positional,
                named,
                name,
            ).contains((#[trigger] params[i]).0),
{
    lemma_stable_sort_sorted::<String>(keys(params));
    lemma_stable_sort_members::<String>(keys(params));
    assert forall|i: int| 0 <= i < params.len() implies stable_sort::<String>(
        keys(params),
    ).contains((#[trigger] params[i]).0) by {
        assert(keys(params)[i] == params[i].0);
        assert(keys(params).contains(params[i].0));
    }
}

} // verus!
