//! Lowering of expressions and of the attributes of declarations.
use vstd::prelude::*;
use indexmap::IndexMap;
use crate::ast;
use crate::ast::Span;
use crate::collections::map_entries;
use crate::collections::map_insert;
use crate::collections::new_map;
use crate::collections::position_of_key;
use crate::expression::Expression;
use crate::expression::ExpressionView;
use crate::expression::Identifier;
use crate::expression::IdentifierView;
use crate::lowering::declared_constraints;
use crate::lowering::ok_view;
use crate::lowering::LoweringError;
use crate::lowering::LoweringErrorKind;
use crate::node::entry_views;
use crate::node::NodeAttributes;
use crate::node::NodeAttributesView;
use crate::seqs::collect_results;
use crate::seqs::lemma_collect_prefix_error;
use crate::seqs::lemma_collect_step;
use crate::seqs::views;
use crate::types::constraint_views;
use crate::types::duplicate_constraints;
use crate::types::Constraint;
use crate::types::ConstraintView;
use crate::types::JinjaExpression;

verus! {

/// What a name lowers to: environment and local names stay identifiers, text
/// and dotted references become strings, and a name that the parser marked
/// invalid is an error at its span.
pub open spec fn lowered_identifier(i: ast::Identifier) -> Result<ExpressionView, LoweringError> {
    match i {
        ast::Identifier::ENV(k, _) => Ok(ExpressionView::Identifier(IdentifierView::ENV(k@))),
        ast::Identifier::String(s, _) => Ok(ExpressionView::String(s@)),
        ast::Identifier::Local(l, _) => Ok(ExpressionView::Identifier(IdentifierView::Local(l@))),
        ast::Identifier::Ref(r, _) => Ok(ExpressionView::String(r.full_name@)),
        ast::Identifier::Invalid(_, span) => Err(
            LoweringError { kind: LoweringErrorKind::InvalidIdentifier, span },
        ),
    }
}

/// What an expression lowers to. Lists and mappings lower item by item, a
/// mapping entry by its key and then its value; the first failure in that
/// order fails the whole.
pub open spec fn lowered_expression(e: ast::Expression) -> Result<ExpressionView, LoweringError>
    decreases e,
{
    match e {
        ast::Expression::BoolValue(b, _) => Ok(ExpressionView::Bool(b)),
        ast::Expression::NumericValue(n, _) => Ok(ExpressionView::Numeric(n@)),
        ast::Expression::StringValue(s, _) => Ok(ExpressionView::String(s@)),
        ast::Expression::RawStringValue(r) => Ok(ExpressionView::RawString(r.value@)),
        ast::Expression::JinjaExpressionValue(j, _) => Ok(ExpressionView::JinjaExpression(j.0@)),
        ast::Expression::Identifier(i) => lowered_identifier(i),
        ast::Expression::Array(items, _) => match collect_results(lowered_items(items@)) {
            Ok(vs) => Ok(ExpressionView::List(vs)),
            Err(e) => Err(e),
        },
        ast::Expression::Mapping(pairs, _) => match collect_results(lowered_pairs(pairs@)) {
            Ok(vs) => Ok(ExpressionView::Mapping(vs)),
            Err(e) => Err(e),
        },
    }
}

/// What each item of a list lowers to.
pub open spec fn lowered_items(items: Seq<ast::Expression>) -> Seq<
    Result<ExpressionView, LoweringError>,
>
    decreases items,
{
    Seq::new(
        items.len(),
        |i: int|
            if 0 <= i < items.len() {
                lowered_expression(items[i])
            } else {
                Ok(ExpressionView::Bool(false))
            },
    )
}

/// A key with a value, where both lowered; else the failure of the key, else
/// that of the value.
pub open spec fn both<A, B, E>(k: Result<A, E>, v: Result<B, E>) -> Result<(A, B), E> {
    match k {
        Err(e) => Err(e),
        Ok(a) => match v {
            Err(e) => Err(e),
            Ok(b) => Ok((a, b)),
        },
    }
}

/// What each entry of a mapping lowers to.
pub open spec fn lowered_pairs(pairs: Seq<(ast::Expression, ast::Expression)>) -> Seq<
    Result<(ExpressionView, ExpressionView), LoweringError>,
>
    decreases pairs,
{
    Seq::new(
        pairs.len(),
        |i: int|
            if 0 <= i < pairs.len() {
                both(lowered_expression(pairs[i].0), lowered_expression(pairs[i].1))
            } else {
                Ok((ExpressionView::Bool(false), ExpressionView::Bool(false)))
            },
    )
}

/// The models of a list of pairs of expressions, in order.
pub open spec fn expression_pair_views(s: Seq<(Expression, Expression)>) -> Seq<
    (ExpressionView, ExpressionView),
> {
    Seq::new(s.len(), |i: int| (s[i].0@, s[i].1@))
}

/// Lowers an expression. The result is exactly [`lowered_expression`].
#[verifier::loop_isolation(false)]
pub fn lower_expression(e: &ast::Expression) -> (r: Result<Expression, LoweringError>)
    ensures
        ok_view(r) == lowered_expression(*e),
    decreases e,
{
    match e {
        ast::Expression::BoolValue(b, _) => Ok(Expression::Bool(*b)),
        ast::Expression::NumericValue(n, _) => Ok(Expression::Numeric(n.clone())),
        ast::Expression::StringValue(s, _) => Ok(Expression::String(s.clone())),
        ast::Expression::RawStringValue(r) => Ok(Expression::RawString(r.value.clone())),
        ast::Expression::JinjaExpressionValue(j, _) => Ok(
            Expression::JinjaExpression(JinjaExpression(j.0.clone())),
        ),
        ast::Expression::Identifier(i) => match i {
            ast::Identifier::ENV(k, _) => Ok(Expression::Identifier(Identifier::ENV(k.clone()))),
            ast::Identifier::String(s, _) => Ok(Expression::String(s.clone())),
            ast::Identifier::Local(l, _) => Ok(
                Expression::Identifier(Identifier::Local(l.clone())),
            ),
            ast::Identifier::Ref(r, _) => Ok(Expression::String(r.full_name.clone())),
            ast::Identifier::Invalid(_, span) => Err(
                LoweringError { kind: LoweringErrorKind::InvalidIdentifier, span: *span },
            ),
        },
        ast::Expression::Array(items, _) => {
            let mut out: Vec<Expression> = Vec::new();
            let ghost rs = lowered_items(items@);
            let mut i: usize = 0;
            assert(views(out@) =~= Seq::<ExpressionView>::empty());
            assert(rs.take(0) =~= Seq::empty());
            while i < items.len()
                invariant
                    i <= items.len(),
                    rs == lowered_items(items@),
                    forall|j: int| 0 <= j < items@.len() ==> decreases_to!(e => items@[j]),
                    collect_results(rs.take(i as int)) == Ok::<Seq<ExpressionView>, LoweringError>(
                        views(out@),
                    ),
                decreases items.len() - i,
            {
                let ghost before = out@;
                proof {
                    lemma_collect_step(rs, i as int);
                }
                match lower_expression(&items[i]) {
                    Ok(v) => {
                        out.push(v);
                        assert(views(out@) =~= views(before).push(v@));
                    },
                    Err(err) => {
                        proof {
                            lemma_collect_prefix_error(rs, i as int + 1);
                        }
                        return Err(err);
                    },
                }
                i += 1;
            }
            assert(rs.take(items.len() as int) =~= rs);
            let ghost all = views(out@);
            let r = Expression::List(out);
            assert(r@->List_0 =~= all);
            Ok(r)
        },
        ast::Expression::Mapping(pairs, _) => {
            let mut out: Vec<(Expression, Expression)> = Vec::new();
            let ghost rs = lowered_pairs(pairs@);
            let mut i: usize = 0;
            assert(expression_pair_views(out@) =~= Seq::<(ExpressionView, ExpressionView)>::empty());
            assert(rs.take(0) =~= Seq::empty());
            while i < pairs.len()
                invariant
                    i <= pairs.len(),
                    rs == lowered_pairs(pairs@),
                    forall|j: int| 0 <= j < pairs@.len() ==> decreases_to!(e => pairs@[j]),
                    collect_results(rs.take(i as int)) == Ok::<
                        Seq<(ExpressionView, ExpressionView)>,
                        LoweringError,
                    >(expression_pair_views(out@)),
                decreases pairs.len() - i,
            {
                let ghost before = out@;
                proof {
                    lemma_collect_step(rs, i as int);
                }
                let k = match lower_expression(&pairs[i].0) {
                    Ok(k) => k,
                    Err(err) => {
                        proof {
                            lemma_collect_prefix_error(rs, i as int + 1);
                        }
                        return Err(err);
                    },
                };
                let v = match lower_expression(&pairs[i].1) {
                    Ok(v) => v,
                    Err(err) => {
                        proof {
                            lemma_collect_prefix_error(rs, i as int + 1);
                        }
                        return Err(err);
                    },
                };
                let ghost kv = (k@, v@);
                out.push((k, v));
                assert(expression_pair_views(out@) =~= expression_pair_views(before).push(kv));
                i += 1;
            }
            assert(rs.take(pairs.len() as int) =~= rs);
            let ghost all = expression_pair_views(out@);
            let r = Expression::Mapping(out);
            assert(r@->Mapping_0 =~= all);
            Ok(r)
        },
    }
}

/// The metadata that a description gives: text, raw text or a template
/// expression; any other expression gives none.
pub open spec fn description_value(d: ast::Expression) -> Option<ExpressionView> {
    match d {
        ast::Expression::StringValue(s, _) => Some(ExpressionView::String(s@)),
        ast::Expression::RawStringValue(r) => Some(ExpressionView::RawString(r.value@)),
        ast::Expression::JinjaExpressionValue(j, _) => Some(ExpressionView::JinjaExpression(j.0@)),
        _ => None,
    }
}

/// One entry under the key if there is a value, no entry otherwise.
pub open spec fn optional_entry(key: Seq<char>, value: Option<ExpressionView>) -> Seq<
    (Seq<char>, ExpressionView),
> {
    match value {
        Some(v) => seq![(key, v)],
        None => Seq::empty(),
    }
}

/// The value recorded for a flag: `true` when it is set, nothing otherwise.
pub open spec fn flag_value(flag: Option<bool>) -> Option<ExpressionView> {
    if flag == Some(true) {
        Some(ExpressionView::Bool(true))
    } else {
        None
    }
}

/// The metadata of a declaration: its description, alias, dynamic-type flag
/// and skip flag, in this order, each only where it is present.
pub open spec fn meta_of(attrs: Option<ast::Attributes>) -> Seq<(Seq<char>, ExpressionView)> {
    match attrs {
        None => Seq::empty(),
        Some(a) => optional_entry(
            "description"@,
            match a.description {
                Some(d) => description_value(d),
                None => None,
            },
        ) + optional_entry(
            "alias"@,
            match a.alias {
                Some(s) => Some(ExpressionView::String(s@)),
                None => None,
            },
        ) + optional_entry("dynamic_type"@, flag_value(a.dynamic_type)) + optional_entry(
            "skip"@,
            flag_value(a.skip),
        ),
    }
}

proof fn lemma_absent_key(entries: Seq<(Seq<char>, Expression)>, key: Seq<char>)
    requires
        forall|i: int| 0 <= i < entries.len() ==> entries[i].0 != key,
    ensures
        position_of_key(entries, key) == entries.len(),
    decreases entries.len(),
{
    if entries.len() > 0 {
        assert(entries[0].0 != key);
        assert forall|i: int| 0 <= i < entries.drop_first().len() implies entries.drop_first()[i].0
            != key by {
            assert(entries.drop_first()[i] == entries[i + 1]);
        }
        lemma_absent_key(entries.drop_first(), key);
    }
}

fn put_new(m: &mut IndexMap<String, Expression>, key: &str, value: Expression)
    requires
        forall|i: int|
            0 <= i < map_entries(*old(m)).len() ==> map_entries(*old(m))[i].0.len() != key@.len(),
    ensures
        map_entries(*final(m)) == map_entries(*old(m)).push((key@, value)),
        entry_views(map_entries(*final(m))) == entry_views(map_entries(*old(m))).push(
            (key@, value@),
        ),
{
    proof {
        lemma_absent_key(map_entries(*m), key@);
    }
    let ghost before = map_entries(*m);
    map_insert(m, String::from_str(key), value);
    assert(entry_views(before.push((key@, value))) =~= entry_views(before).push((key@, value@)));
}

fn description_of(d: &ast::Expression) -> (r: Option<Expression>)
    ensures
        match r {
            Some(v) => description_value(*d) == Some(v@),
            None => description_value(*d) is None,
        },
{
    match d {
        ast::Expression::StringValue(s, _) => Some(Expression::String(s.clone())),
        ast::Expression::RawStringValue(r) => Some(Expression::RawString(r.value.clone())),
        ast::Expression::JinjaExpressionValue(j, _) => Some(
            Expression::JinjaExpression(JinjaExpression(j.0.clone())),
        ),
        _ => None,
    }
}

/// Normalizes the attributes of a declaration into a map of metadata and a list
/// of constraints. Without attributes both are empty.
pub fn to_ir_attributes(maybe_attributes: &Option<ast::Attributes>) -> (r: (
    IndexMap<String, Expression>,
    Vec<Constraint>,
))
    ensures
        entry_views(map_entries(r.0)) == meta_of(*maybe_attributes),
        constraint_views(r.1@) == declared_constraints(*maybe_attributes),
{
    let mut meta = new_map();
    assert(entry_views(map_entries(meta)) =~= Seq::empty());
    match maybe_attributes {
        None => {
            let constraints: Vec<Constraint> = Vec::new();
            assert(constraint_views(constraints@) =~= Seq::<ConstraintView>::empty());
            (meta, constraints)
        },
        Some(a) => {
            proof {
                reveal_strlit("description");
                reveal_strlit("alias");
                reveal_strlit("dynamic_type");
                reveal_strlit("skip");
            }
            let ghost e0 = entry_views(map_entries(meta));
            match &a.description {
                Some(d) => match description_of(d) {
                    Some(v) => {
                        put_new(&mut meta, "description", v);
                    },
                    None => {},
                },
                None => {},
            }
            let ghost e1 = entry_views(map_entries(meta));
            assert(e1 =~= optional_entry(
                "description"@,
                match a.description {
                    Some(d) => description_value(d),
                    None => None,
                },
            ));
            assert(forall|i: int|
                0 <= i < map_entries(meta).len() ==> map_entries(meta)[i].0.len() == 11);
            match &a.alias {
                Some(s) => {
                    put_new(&mut meta, "alias", Expression::String(s.clone()));
                },
                None => {},
            }
            let ghost e2 = entry_views(map_entries(meta));
            assert(e2 =~= e1 + optional_entry(
                "alias"@,
                match a.alias {
                    Some(s) => Some(ExpressionView::String(s@)),
                    None => None,
                },
            ));
            assert(forall|i: int|
                0 <= i < map_entries(meta).len() ==> map_entries(meta)[i].0.len() == 11
                    || map_entries(meta)[i].0.len() == 5);
            match a.dynamic_type {
                Some(true) => {
                    put_new(&mut meta, "dynamic_type", Expression::Bool(true));
                },
                _ => {},
            }
            let ghost e3 = entry_views(map_entries(meta));
            assert(e3 =~= e2 + optional_entry("dynamic_type"@, flag_value(a.dynamic_type)));
            assert(forall|i: int|
                0 <= i < map_entries(meta).len() ==> map_entries(meta)[i].0.len() == 11
                    || map_entries(meta)[i].0.len() == 5 || map_entries(meta)[i].0.len() == 12);
            match a.skip {
                Some(true) => {
                    put_new(&mut meta, "skip", Expression::Bool(true));
                },
                _ => {},
            }
            let ghost e4 = entry_views(map_entries(meta));
            assert(e4 =~= e3 + optional_entry("skip"@, flag_value(a.skip)));
            (meta, duplicate_constraints(&a.constraints))
        },
    }
}

/// The attributes of a declaration as a node carries them.
pub open spec fn node_attributes_of(attrs: Option<ast::Attributes>, span: Span) -> NodeAttributesView {
    NodeAttributesView {
        meta: meta_of(attrs),
        constraints: declared_constraints(attrs),
        span: Some(span),
    }
}

/// The attributes of the node of a declaration: its normalized metadata and
/// constraints, and its span.
pub fn declared_attributes(attrs: &Option<ast::Attributes>, span: Span) -> (r: NodeAttributes)
    ensures
        r@ == node_attributes_of(*attrs, span),
{
    let (meta, constraints) = to_ir_attributes(attrs);
    NodeAttributes { meta, constraints, span: Some(span) }
}

/// The attributes of a node that carries nothing but its span.
pub open spec fn span_attributes(span: Span) -> NodeAttributesView {
    NodeAttributesView { meta: Seq::empty(), constraints: Seq::empty(), span: Some(span) }
}

/// The attributes of a node that carries nothing but its span.
pub fn span_only(span: Span) -> (r: NodeAttributes)
    ensures
        r@ == span_attributes(span),
{
    let r = NodeAttributes::bare(Vec::new(), Some(span));
    assert(r@.constraints =~= Seq::empty());
    r
}

} // verus!
