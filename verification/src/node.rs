//! Metadata attached to every entity of the intermediate representation.
use vstd::prelude::*;
use indexmap::IndexMap;
use crate::ast::Span;
use crate::collections::lookup;
use crate::collections::map_entries;
use crate::collections::map_get;
use crate::collections::new_map;
use crate::expression::Expression;
use crate::expression::ExpressionView;
use crate::types::constraint_views;
use crate::types::Constraint;
use crate::types::ConstraintView;

verus! {

/// The models of the entries of an attribute map, in order.
pub open spec fn entry_views(entries: Seq<(Seq<char>, Expression)>) -> Seq<
    (Seq<char>, ExpressionView),
> {
    Seq::new(entries.len(), |i: int| (entries[i].0, entries[i].1@))
}

/// The attributes of a node: a map of named metadata, the constraints that
/// apply to it, and where it stands in source.
#[derive(Debug, PartialEq)]
pub struct NodeAttributes {
    /// Named metadata. `@skip` is recorded as `("skip", true)`, `@alias(..)` as
    /// `("alias", ..)`.
    pub meta: IndexMap<String, Expression>,
    pub constraints: Vec<Constraint>,
    pub span: Option<Span>,
}

/// Mathematical model of [`NodeAttributes`].
pub ghost struct NodeAttributesView {
    pub meta: Seq<(Seq<char>, ExpressionView)>,
    pub constraints: Seq<ConstraintView>,
    pub span: Option<Span>,
}

impl View for NodeAttributes {
    type V = NodeAttributesView;

    open spec fn view(&self) -> NodeAttributesView {
        NodeAttributesView {
            meta: entry_views(map_entries(self.meta)),
            constraints: constraint_views(self.constraints@),
            span: self.span,
        }
    }
}

impl NodeAttributes {
    /// Attributes with no metadata, with the given constraints and span.
    pub fn bare(constraints: Vec<Constraint>, span: Option<Span>) -> (r: NodeAttributes)
        ensures
            r.constraints == constraints,
            r@ == (NodeAttributesView {
                meta: Seq::empty(),
                constraints: constraint_views(constraints@),
                span,
            }),
    {
        let r = NodeAttributes { meta: new_map(), constraints, span };
        assert(r@.meta =~= Seq::empty());
        r
    }

    /// The metadata stored under a key, if any.
    pub fn get(&self, key: &str) -> (r: Option<&Expression>)
        ensures
            match r {
                Some(v) => lookup(map_entries(self.meta), key@) == Some(*v),
                None => lookup(map_entries(self.meta), key@) is None,
            },
    {
        map_get(&self.meta, key)
    }
}

impl Default for NodeAttributes {
    fn default() -> (r: NodeAttributes)
        ensures
            r@ == (NodeAttributesView {
                meta: Seq::empty(),
                constraints: Seq::empty(),
                span: None,
            }),
    {
        let r = NodeAttributes::bare(Vec::new(), None);
        assert(r@.constraints =~= Seq::empty());
        r
    }
}

/// An entity of the intermediate representation with its attributes.
#[derive(Debug, PartialEq)]
pub struct Node<T> {
    pub attributes: NodeAttributes,
    pub elem: T,
}

/// Mathematical model of a [`Node`].
pub ghost struct NodeView<V> {
    pub attributes: NodeAttributesView,
    pub elem: V,
}

impl<T: View> View for Node<T> {
    type V = NodeView<T::V>;

    open spec fn view(&self) -> NodeView<T::V> {
        NodeView { attributes: self.attributes@, elem: self.elem@ }
    }
}

} // verus!
