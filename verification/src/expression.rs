//! Literal expressions carried by attributes, client options and test arguments.
use vstd::prelude::*;
use crate::types::JinjaExpression;
use crate::types::TypeValue;
use crate::types::BamlMediaType;
use crate::text::join;
use crate::text::join_spec;
use crate::text::string_views;
use crate::seqs::concat_all;

verus! {

/// The spelling of a primitive type in schema source.
pub open spec fn type_value_name(t: TypeValue) -> Seq<char> {
    match t {
        TypeValue::String => "string"@,
        TypeValue::Int => "int"@,
        TypeValue::Float => "float"@,
        TypeValue::Bool => "bool"@,
        TypeValue::Null => "null"@,
        TypeValue::Media(BamlMediaType::Image) => "image"@,
        TypeValue::Media(BamlMediaType::Audio) => "audio"@,
    }
}

impl TypeValue {
    /// The spelling of the primitive type in schema source.
    pub fn name(&self) -> (r: String)
        ensures
            r@ == type_value_name(*self),
    {
        match self {
            TypeValue::String => String::from_str("string"),
            TypeValue::Int => String::from_str("int"),
            TypeValue::Float => String::from_str("float"),
            TypeValue::Bool => String::from_str("bool"),
            TypeValue::Null => String::from_str("null"),
            TypeValue::Media(BamlMediaType::Image) => String::from_str("image"),
            TypeValue::Media(BamlMediaType::Audio) => String::from_str("audio"),
        }
    }
}

/// A name used as a value.
#[derive(Debug, PartialEq, Eq)]
pub enum Identifier {
    /// A reference to an environment variable.
    ENV(String),
    /// A dotted path to a local name.
    Ref(Vec<String>),
    /// A plain local name.
    Local(String),
    /// The name of a primitive type.
    Primitive(TypeValue),
}

/// Mathematical model of an [`Identifier`].
pub ghost enum IdentifierView {
    ENV(Seq<char>),
    Ref(Seq<Seq<char>>),
    Local(Seq<char>),
    Primitive(TypeValue),
}

impl View for Identifier {
    type V = IdentifierView;

    open spec fn view(&self) -> IdentifierView {
        match self {
            Identifier::ENV(k) => IdentifierView::ENV(k@),
            Identifier::Ref(r) => IdentifierView::Ref(string_views(r@)),
            Identifier::Local(l) => IdentifierView::Local(l@),
            Identifier::Primitive(p) => IdentifierView::Primitive(*p),
        }
    }
}

/// The text that an identifier stands for.
pub open spec fn identifier_name(i: IdentifierView) -> Seq<char> {
    match i {
        IdentifierView::ENV(k) => k,
        IdentifierView::Ref(r) => join_spec(r, "."@),
        IdentifierView::Local(l) => l,
        IdentifierView::Primitive(p) => type_value_name(p),
    }
}

impl Identifier {
    /// The text that the identifier stands for: the variable or local name, the
    /// path joined with dots, or the spelling of the primitive type.
    pub fn name(&self) -> (r: String)
        ensures
            r@ == identifier_name(self@),
    {
        match self {
            Identifier::ENV(k) => k.clone(),
            Identifier::Ref(r) => join(r, "."),
            Identifier::Local(l) => l.clone(),
            Identifier::Primitive(p) => p.name(),
        }
    }
}

/// A literal expression.
#[derive(Debug, PartialEq, Eq)]
pub enum Expression {
    Identifier(Identifier),
    Bool(bool),
    /// A number, kept as written.
    Numeric(String),
    String(String),
    RawString(String),
    List(Vec<Expression>),
    Mapping(Vec<(Expression, Expression)>),
    JinjaExpression(JinjaExpression),
}

/// Mathematical model of an [`Expression`].
pub ghost enum ExpressionView {
    Identifier(IdentifierView),
    Bool(bool),
    Numeric(Seq<char>),
    String(Seq<char>),
    RawString(Seq<char>),
    List(Seq<ExpressionView>),
    Mapping(Seq<(ExpressionView, ExpressionView)>),
    JinjaExpression(Seq<char>),
}

/// The model of an expression, defined by recursion over its structure.
pub open spec fn expression_view(e: Expression) -> ExpressionView
    decreases e,
{
    match e {
        Expression::Identifier(i) => ExpressionView::Identifier(i@),
        Expression::Bool(b) => ExpressionView::Bool(b),
        Expression::Numeric(n) => ExpressionView::Numeric(n@),
        Expression::String(s) => ExpressionView::String(s@),
        Expression::RawString(s) => ExpressionView::RawString(s@),
        Expression::List(items) => ExpressionView::List(
            Seq::new(
                items@.len(),
                |i: int|
                    if 0 <= i < items@.len() {
                        expression_view(items@[i])
                    } else {
                        ExpressionView::Bool(false)
                    },
            ),
        ),
        Expression::Mapping(pairs) => ExpressionView::Mapping(
            Seq::new(
                pairs@.len(),
                |i: int|
                    if 0 <= i < pairs@.len() {
                        (expression_view(pairs@[i].0), expression_view(pairs@[i].1))
                    } else {
                        (ExpressionView::Bool(false), ExpressionView::Bool(false))
                    },
            ),
        ),
        Expression::JinjaExpression(j) => ExpressionView::JinjaExpression(j.0@),
    }
}

impl View for Expression {
    type V = ExpressionView;

    open spec fn view(&self) -> ExpressionView {
        expression_view(*self)
    }
}

/// The environment variables that an expression names, in order of occurrence
/// and with repetitions: the expression itself when it is an environment
/// identifier, and those of the items of a list and of the keys and values of a
/// mapping.
pub open spec fn env_vars(e: ExpressionView) -> Seq<Seq<char>>
    decreases e,
{
    match e {
        ExpressionView::Identifier(IdentifierView::ENV(k)) => seq![k],
        ExpressionView::List(items) => concat_all(env_vars_of_items(items)),
        ExpressionView::Mapping(pairs) => concat_all(env_vars_of_pairs(pairs)),
        _ => Seq::empty(),
    }
}

/// The environment variables of each item of a list.
pub open spec fn env_vars_of_items(items: Seq<ExpressionView>) -> Seq<Seq<Seq<char>>>
    decreases items,
{
    Seq::new(
        items.len(),
        |i: int|
            if 0 <= i < items.len() {
                env_vars(items[i])
            } else {
                Seq::empty()
            },
    )
}

/// The environment variables of each entry of a mapping: those of the key, then
/// those of the value.
pub open spec fn env_vars_of_pairs(pairs: Seq<(ExpressionView, ExpressionView)>) -> Seq<
    Seq<Seq<char>>,
>
    decreases pairs,
{
    Seq::new(
        pairs.len(),
        |i: int|
            if 0 <= i < pairs.len() {
                env_vars(pairs[i].0) + env_vars(pairs[i].1)
            } else {
                Seq::empty()
            },
    )
}

/// Appends copies of all of `more` to `out`.
pub fn extend_strings(out: &mut Vec<String>, more: &Vec<String>)
    ensures
        string_views(final(out)@) == string_views(old(out)@) + string_views(more@),
{
    let mut i: usize = 0;
    while i < more.len()
        invariant
            i <= more.len(),
            string_views(out@) == string_views(old(out)@) + string_views(more@).take(i as int),
        decreases more.len() - i,
    {
        let ghost before = out@;
        out.push(more[i].clone());
        i += 1;
        assert(string_views(out@) =~= string_views(before).push(more@[i - 1]@));
        assert(string_views(more@).take(i as int) =~= string_views(more@).take(i - 1).push(
            more@[i - 1]@,
        ));
        assert(string_views(out@) =~= string_views(old(out)@) + string_views(more@).take(
            i as int,
        ));
    }
    assert(string_views(more@).take(more.len() as int) =~= string_views(more@));
}

impl Expression {
    /// The names of the environment variables that the expression refers to,
    /// searching lists and mappings recursively.
    pub fn required_env_vars(&self) -> (r: Vec<String>)
        ensures
            string_views(r@) == env_vars(self@),
        decreases self,
    {
        match self {
            Expression::Identifier(Identifier::ENV(k)) => {
                let mut out: Vec<String> = Vec::new();
                out.push(k.clone());
                assert(string_views(out@) =~= seq![k@]);
                out
            },
            Expression::List(items) => {
                let mut out: Vec<String> = Vec::new();
                let ghost parts = env_vars_of_items(self@->List_0);
                let mut i: usize = 0;
                assert(string_views(out@) =~= concat_all(parts.take(0)));
                while i < items.len()
                    invariant
                        i <= items.len(),
                        parts.len() == items@.len(),
                        forall|j: int| 0 <= j < items@.len() ==> parts[j] == env_vars(items@[j]@),
                        forall|j: int| 0 <= j < items@.len() ==> decreases_to!(self => items@[j]),
                        string_views(out@) == concat_all(parts.take(i as int)),
                    decreases items.len() - i,
                {
                    let more = items[i].required_env_vars();
                    extend_strings(&mut out, &more);
                    proof {
                        assert(parts.take(i + 1).drop_last() =~= parts.take(i as int));
                    }
                    i += 1;
                }
                assert(parts.take(items.len() as int) =~= parts);
                out
            },
            Expression::Mapping(pairs) => {
                let mut out: Vec<String> = Vec::new();
                let ghost parts = env_vars_of_pairs(self@->Mapping_0);
                let mut i: usize = 0;
                assert(string_views(out@) =~= concat_all(parts.take(0)));
                while i < pairs.len()
                    invariant
                        i <= pairs.len(),
                        parts.len() == pairs@.len(),
                        forall|j: int|
                            0 <= j < pairs@.len() ==> parts[j] == env_vars(pairs@[j].0@)
                                + env_vars(pairs@[j].1@),
                        forall|j: int| 0 <= j < pairs@.len() ==> decreases_to!(self => pairs@[j]),
                        string_views(out@) == concat_all(parts.take(i as int)),
                    decreases pairs.len() - i,
                {
                    let keys = pairs[i].0.required_env_vars();
                    let values = pairs[i].1.required_env_vars();
                    extend_strings(&mut out, &keys);
                    extend_strings(&mut out, &values);
                    proof {
                        assert(parts.take(i + 1).drop_last() =~= parts.take(i as int));
                        assert(string_views(out@) =~= concat_all(parts.take(i as int))
                            + parts[i as int]);
                    }
                    i += 1;
                }
                assert(parts.take(pairs.len() as int) =~= parts);
                out
            },
            _ => {
                let out: Vec<String> = Vec::new();
                assert(string_views(out@) =~= Seq::<Seq<char>>::empty());
                out
            },
        }
    }
}

} // verus!
