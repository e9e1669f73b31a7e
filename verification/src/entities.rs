//! Lowering of the declarations of a schema into the entities of the
//! intermediate representation.
use vstd::prelude::*;
use crate::ast;
use crate::ast::ParserDatabase;
use crate::expression::Expression;
use crate::expression::ExpressionView;
use crate::lowering::field_type_attributes;
use crate::lowering::lower_type;
use crate::lowering::lowered_type;
use crate::lowering::ok_view;
use crate::lowering::own_constraints;
use crate::lowering::LoweringError;
use crate::lowering::LoweringErrorKind;
use crate::metadata::declared_attributes;
use crate::metadata::lower_expression;
use crate::metadata::lowered_expression;
use crate::metadata::node_attributes_of;
use crate::metadata::span_attributes;
use crate::metadata::span_only;
use crate::node::Node;
use crate::node::NodeAttributesView;
use crate::node::NodeView;
use crate::repr::named_type_views;
use crate::repr::option_views;
use crate::repr::Class;
use crate::repr::ClassView;
use crate::repr::Client;
use crate::repr::ClientView;
use crate::repr::Enum;
use crate::repr::EnumValue;
use crate::repr::EnumView;
use crate::repr::Field;
use crate::repr::FieldView;
use crate::repr::RetryPolicy;
use crate::repr::RetryPolicyId;
use crate::repr::RetryPolicyView;
use crate::repr::TemplateString;
use crate::repr::TemplateStringView;
use crate::seqs::collect_results;
use crate::seqs::lemma_collect_prefix_error;
use crate::seqs::lemma_collect_step;
use crate::seqs::views;
use crate::types::FieldType;
use crate::types::FieldTypeView;

verus! {

/// What an enum value lowers to.
pub open spec fn lowered_enum_value(v: ast::EnumValueDecl) -> NodeView<Seq<char>> {
    NodeView { attributes: node_attributes_of(v.attributes, v.span), elem: v.name@ }
}

/// What the values of an enum lower to.
pub open spec fn lowered_enum_values(vs: Seq<ast::EnumValueDecl>) -> Seq<NodeView<Seq<char>>> {
    Seq::new(vs.len(), |i: int| lowered_enum_value(vs[i]))
}

/// What an enum lowers to.
pub open spec fn lowered_enum(e: ast::EnumDecl) -> NodeView<EnumView> {
    NodeView {
        attributes: node_attributes_of(e.attributes, e.span),
        elem: EnumView { name: e.name@, values: lowered_enum_values(e.values@) },
    }
}

/// Lowers an enum with its values.
pub fn lower_enum(e: &ast::EnumDecl) -> (r: Node<Enum>)
    ensures
        r@ == lowered_enum(*e),
{
    let mut values: Vec<Node<EnumValue>> = Vec::new();
    let mut i: usize = 0;
    while i < e.values.len()
        invariant
            i <= e.values.len(),
            views(values@) =~= lowered_enum_values(e.values@).take(i as int),
        decreases e.values.len() - i,
    {
        let v = &e.values[i];
        let ghost before = values@;
        let node = Node {
            attributes: declared_attributes(&v.attributes, v.span),
            elem: EnumValue(v.name.clone()),
        };
        assert(node@ == lowered_enum_value(*v));
        values.push(node);
        assert(views(values@) =~= views(before).push(node@));
        i += 1;
    }
    assert(lowered_enum_values(e.values@).take(i as int) =~= lowered_enum_values(e.values@));
    Node {
        attributes: declared_attributes(&e.attributes, e.span),
        elem: Enum { name: e.name.clone(), values },
    }
}

/// What a class field lowers to: the field and the node of its type both carry
/// the attributes of the field. A field without a type is an error at the
/// field.
pub open spec fn lowered_field(f: ast::FieldDecl, db: ParserDatabase) -> Result<
    NodeView<FieldView>,
    LoweringError,
> {
    match f.expr {
        None => Err(LoweringError { kind: LoweringErrorKind::MissingFieldType, span: f.span }),
        Some(t) => match lowered_type(t, db) {
            Err(e) => Err(e),
            Ok(lowered) => Ok(
                NodeView {
                    attributes: node_attributes_of(f.attributes, f.span),
                    elem: FieldView {
                        name: f.name@,
                        field_type: NodeView {
                            attributes: node_attributes_of(f.attributes, f.span),
                            elem: lowered,
                        },
                    },
                },
            ),
        },
    }
}

/// What each field of a class lowers to.
pub open spec fn lowered_fields(fs: Seq<ast::FieldDecl>, db: ParserDatabase) -> Seq<
    Result<NodeView<FieldView>, LoweringError>,
> {
    Seq::new(fs.len(), |i: int| lowered_field(fs[i], db))
}

/// Lowers a class field.
pub fn lower_field(f: &ast::FieldDecl, db: &ParserDatabase) -> (r: Result<
    Node<Field>,
    LoweringError,
>)
    ensures
        ok_view(r) == lowered_field(*f, *db),
{
    let t = match &f.expr {
        Some(t) => t,
        None => {
            return Err(
                LoweringError { kind: LoweringErrorKind::MissingFieldType, span: f.span },
            );
        },
    };
    let lowered = match lower_type(t, db) {
        Ok(l) => l,
        Err(e) => {
            return Err(e);
        },
    };
    Ok(
        Node {
            attributes: declared_attributes(&f.attributes, f.span),
            elem: Field {
                name: f.name.clone(),
                field_type: Node {
                    attributes: declared_attributes(&f.attributes, f.span),
                    elem: lowered,
                },
            },
        },
    )
}

/// What a named parameter lowers to.
pub open spec fn lowered_arg(a: ast::BlockArg, db: ParserDatabase) -> Result<
    (Seq<char>, FieldTypeView),
    LoweringError,
> {
    match lowered_type(a.field_type, db) {
        Ok(t) => Ok((a.name@, t)),
        Err(e) => Err(e),
    }
}

/// What each parameter of a list lowers to.
pub open spec fn lowered_args(args: Seq<ast::BlockArg>, db: ParserDatabase) -> Seq<
    Result<(Seq<char>, FieldTypeView), LoweringError>,
> {
    Seq::new(args.len(), |i: int| lowered_arg(args[i], db))
}

/// Lowers a list of named parameters; the first that fails, fails the list.
pub fn lower_args(args: &Vec<ast::BlockArg>, db: &ParserDatabase) -> (r: Result<
    Vec<(String, FieldType)>,
    LoweringError,
>)
    ensures
        match r {
            Ok(v) => collect_results(lowered_args(args@, *db)) == Ok::<
                Seq<(Seq<char>, FieldTypeView)>,
                LoweringError,
            >(named_type_views(v@)),
            Err(e) => collect_results(lowered_args(args@, *db)) == Err::<
                Seq<(Seq<char>, FieldTypeView)>,
                LoweringError,
            >(e),
        },
{
    let mut out: Vec<(String, FieldType)> = Vec::new();
    let ghost rs = lowered_args(args@, *db);
    let mut i: usize = 0;
    assert(named_type_views(out@) =~= Seq::empty());
    assert(rs.take(0) =~= Seq::empty());
    while i < args.len()
        invariant
            i <= args.len(),
            rs == lowered_args(args@, *db),
            collect_results(rs.take(i as int)) == Ok::<
                Seq<(Seq<char>, FieldTypeView)>,
                LoweringError,
            >(named_type_views(out@)),
        decreases args.len() - i,
    {
        let ghost before = out@;
        proof {
            lemma_collect_step(rs, i as int);
        }
        match lower_type(&args[i].field_type, db) {
            Ok(t) => {
                let ghost entry = (args@[i as int].name@, t@);
                out.push((args[i].name.clone(), t));
                assert(named_type_views(out@) =~= named_type_views(before).push(entry));
            },
            Err(e) => {
                proof {
                    lemma_collect_prefix_error(rs, i as int + 1);
                }
                return Err(e);
            },
        }
        i += 1;
    }
    assert(rs.take(args.len() as int) =~= rs);
    Ok(out)
}

/// The parameters of a definition that may have none: none lowers to the empty
/// list.
pub open spec fn lowered_optional_args(input: Option<Vec<ast::BlockArg>>, db: ParserDatabase) -> Result<
    Seq<(Seq<char>, FieldTypeView)>,
    LoweringError,
> {
    match input {
        Some(args) => collect_results(lowered_args(args@, db)),
        None => Ok(Seq::empty()),
    }
}

/// What a class lowers to: its fields, then the parameters of its definition.
pub open spec fn lowered_class(c: ast::ClassDecl, db: ParserDatabase) -> Result<
    NodeView<ClassView>,
    LoweringError,
> {
    match collect_results(lowered_fields(c.fields@, db)) {
        Err(e) => Err(e),
        Ok(fields) => match lowered_optional_args(c.input, db) {
            Err(e) => Err(e),
            Ok(inputs) => Ok(
                NodeView {
                    attributes: node_attributes_of(c.attributes, c.span),
                    elem: ClassView { name: c.name@, static_fields: fields, inputs },
                },
            ),
        },
    }
}

/// Lowers a class.
pub fn lower_class(c: &ast::ClassDecl, db: &ParserDatabase) -> (r: Result<
    Node<Class>,
    LoweringError,
>)
    ensures
        ok_view(r) == lowered_class(*c, *db),
{
    let mut fields: Vec<Node<Field>> = Vec::new();
    let ghost rs = lowered_fields(c.fields@, *db);
    let mut i: usize = 0;
    assert(views(fields@) =~= Seq::empty());
    assert(rs.take(0) =~= Seq::empty());
    while i < c.fields.len()
        invariant
            i <= c.fields.len(),
            rs == lowered_fields(c.fields@, *db),
            collect_results(rs.take(i as int)) == Ok::<Seq<NodeView<FieldView>>, LoweringError>(
                views(fields@),
            ),
        decreases c.fields.len() - i,
    {
        let ghost before = fields@;
        proof {
            lemma_collect_step(rs, i as int);
        }
        match lower_field(&c.fields[i], db) {
            Ok(f) => {
                fields.push(f);
                assert(views(fields@) =~= views(before).push(f@));
            },
            Err(e) => {
                proof {
                    lemma_collect_prefix_error(rs, i as int + 1);
                }
                return Err(e);
            },
        }
        i += 1;
    }
    assert(rs.take(c.fields.len() as int) =~= rs);
    let inputs = match &c.input {
        Some(args) => match lower_args(args, db) {
            Ok(v) => v,
            Err(e) => {
                return Err(e);
            },
        },
        None => {
            let v: Vec<(String, FieldType)> = Vec::new();
            assert(named_type_views(v@) =~= Seq::empty());
            v
        },
    };
    Ok(
        Node {
            attributes: declared_attributes(&c.attributes, c.span),
            elem: Class { name: c.name.clone(), static_fields: fields, inputs },
        },
    )
}

/// What a named expression lowers to.
pub open spec fn lowered_option(o: (String, ast::Expression)) -> Result<
    (Seq<char>, ExpressionView),
    LoweringError,
> {
    match lowered_expression(o.1) {
        Ok(v) => Ok((o.0@, v)),
        Err(e) => Err(e),
    }
}

/// What each named expression of a list lowers to.
pub open spec fn lowered_options(opts: Seq<(String, ast::Expression)>) -> Seq<
    Result<(Seq<char>, ExpressionView), LoweringError>,
> {
    Seq::new(opts.len(), |i: int| lowered_option(opts[i]))
}

/// Lowers a list of named expressions; the first that fails, fails the list.
pub fn lower_options(opts: &Vec<(String, ast::Expression)>) -> (r: Result<
    Vec<(String, Expression)>,
    LoweringError,
>)
    ensures
        match r {
            Ok(v) => collect_results(lowered_options(opts@)) == Ok::<
                Seq<(Seq<char>, ExpressionView)>,
                LoweringError,
            >(option_views(v@)),
            Err(e) => collect_results(lowered_options(opts@)) == Err::<
                Seq<(Seq<char>, ExpressionView)>,
                LoweringError,
            >(e),
        },
{
    let mut out: Vec<(String, Expression)> = Vec::new();
    let ghost rs = lowered_options(opts@);
    let mut i: usize = 0;
    assert(option_views(out@) =~= Seq::empty());
    assert(rs.take(0) =~= Seq::empty());
    while i < opts.len()
        invariant
            i <= opts.len(),
            rs == lowered_options(opts@),
            collect_results(rs.take(i as int)) == Ok::<
                Seq<(Seq<char>, ExpressionView)>,
                LoweringError,
            >(option_views(out@)),
        decreases opts.len() - i,
    {
        let ghost before = out@;
        proof {
            lemma_collect_step(rs, i as int);
        }
        match lower_expression(&opts[i].1) {
            Ok(v) => {
                let ghost entry = (opts@[i as int].0@, v@);
                out.push((opts[i].0.clone(), v));
                assert(option_views(out@) =~= option_views(before).push(entry));
            },
            Err(e) => {
                proof {
                    lemma_collect_prefix_error(rs, i as int + 1);
                }
                return Err(e);
            },
        }
        i += 1;
    }
    assert(rs.take(opts.len() as int) =~= rs);
    Ok(out)
}

/// What a client lowers to.
pub open spec fn lowered_client(c: ast::ClientDecl) -> Result<NodeView<ClientView>, LoweringError> {
    match collect_results(lowered_options(c.options@)) {
        Err(e) => Err(e),
        Ok(options) => Ok(
            NodeView {
                attributes: span_attributes(c.span),
                elem: ClientView {
                    name: c.name@,
                    provider: c.provider@,
                    retry_policy_id: match c.retry_policy {
                        Some(p) => Some(p.0@),
                        None => None,
                    },
                    options,
                },
            },
        ),
    }
}

/// Lowers a client.
pub fn lower_client(c: &ast::ClientDecl) -> (r: Result<Node<Client>, LoweringError>)
    ensures
        ok_view(r) == lowered_client(*c),
{
    let options = match lower_options(&c.options) {
        Ok(o) => o,
        Err(e) => {
            return Err(e);
        },
    };
    Ok(
        Node {
            attributes: span_only(c.span),
            elem: Client {
                name: c.name.clone(),
                provider: c.provider.clone(),
                retry_policy_id: match &c.retry_policy {
                    Some(p) => Some(p.0.clone()),
                    None => None,
                },
                options,
            },
        },
    )
}

/// What a retry policy lowers to; a policy without options has an empty list
/// of them.
pub open spec fn lowered_retry_policy(p: ast::RetryPolicyDecl) -> Result<
    NodeView<RetryPolicyView>,
    LoweringError,
> {
    let options = match p.options {
        Some(o) => collect_results(lowered_options(o@)),
        None => Ok(Seq::empty()),
    };
    match options {
        Err(e) => Err(e),
        Ok(options) => Ok(
            NodeView {
                attributes: span_attributes(p.span),
                elem: RetryPolicyView {
                    name: p.name@,
                    max_retries: p.max_retries,
                    strategy: p.strategy,
                    options,
                },
            },
        ),
    }
}

/// Lowers a retry policy.
pub fn lower_retry_policy(p: &ast::RetryPolicyDecl) -> (r: Result<Node<RetryPolicy>, LoweringError>)
    ensures
        ok_view(r) == lowered_retry_policy(*p),
{
    let options = match &p.options {
        Some(o) => match lower_options(o) {
            Ok(o) => o,
            Err(e) => {
                return Err(e);
            },
        },
        None => {
            let v: Vec<(String, Expression)> = Vec::new();
            assert(option_views(v@) =~= Seq::empty());
            v
        },
    };
    Ok(
        Node {
            attributes: span_only(p.span),
            elem: RetryPolicy {
                name: RetryPolicyId(p.name.clone()),
                max_retries: p.max_retries,
                strategy: p.strategy,
                options,
            },
        },
    )
}

/// What a parameter of a template string lowers to: a field whose type node
/// carries the constraints and the span of the declared type.
pub open spec fn lowered_param(a: ast::BlockArg, db: ParserDatabase) -> Result<
    FieldView,
    LoweringError,
> {
    match lowered_type(a.field_type, db) {
        Err(e) => Err(e),
        Ok(t) => Ok(
            FieldView {
                name: a.name@,
                field_type: NodeView {
                    attributes: NodeAttributesView {
                        meta: Seq::empty(),
                        constraints: own_constraints(a.field_type.attributes_of()),
                        span: Some(a.field_type.span_of()),
                    },
                    elem: t,
                },
            },
        ),
    }
}

/// What each parameter of a template string lowers to.
pub open spec fn lowered_params(args: Seq<ast::BlockArg>, db: ParserDatabase) -> Seq<
    Result<FieldView, LoweringError>,
> {
    Seq::new(args.len(), |i: int| lowered_param(args[i], db))
}

/// What a template string lowers to.
pub open spec fn lowered_template_string(t: ast::TemplateStringDecl, db: ParserDatabase) -> Result<
    NodeView<TemplateStringView>,
    LoweringError,
> {
    let params = match t.input {
        Some(args) => collect_results(lowered_params(args@, db)),
        None => Ok(Seq::empty()),
    };
    match params {
        Err(e) => Err(e),
        Ok(params) => Ok(
            NodeView {
                attributes: span_attributes(t.span),
                elem: TemplateStringView { name: t.name@, params, content: t.template@ },
            },
        ),
    }
}

fn lower_params(args: &Vec<ast::BlockArg>, db: &ParserDatabase) -> (r: Result<
    Vec<Field>,
    LoweringError,
>)
    ensures
        match r {
            Ok(v) => collect_results(lowered_params(args@, *db)) == Ok::<
                Seq<FieldView>,
                LoweringError,
            >(views(v@)),
            Err(e) => collect_results(lowered_params(args@, *db)) == Err::<
                Seq<FieldView>,
                LoweringError,
            >(e),
        },
{
    let mut out: Vec<Field> = Vec::new();
    let ghost rs = lowered_params(args@, *db);
    let mut i: usize = 0;
    assert(views(out@) =~= Seq::empty());
    assert(rs.take(0) =~= Seq::empty());
    while i < args.len()
        invariant
            i <= args.len(),
            rs == lowered_params(args@, *db),
            collect_results(rs.take(i as int)) == Ok::<Seq<FieldView>, LoweringError>(
                views(out@),
            ),
        decreases args.len() - i,
    {
        let ghost before = out@;
        proof {
            lemma_collect_step(rs, i as int);
        }
        match lower_type(&args[i].field_type, db) {
            Ok(t) => {
                let f = Field {
                    name: args[i].name.clone(),
                    field_type: Node {
                        attributes: field_type_attributes(&args[i].field_type),
                        elem: t,
                    },
                };
                out.push(f);
                assert(views(out@) =~= views(before).push(f@));
            },
            Err(e) => {
                proof {
                    lemma_collect_prefix_error(rs, i as int + 1);
                }
                return Err(e);
            },
        }
        i += 1;
    }
    assert(rs.take(args.len() as int) =~= rs);
    Ok(out)
}

/// Lowers a template string.
pub fn lower_template_string(t: &ast::TemplateStringDecl, db: &ParserDatabase) -> (r: Result<
    Node<TemplateString>,
    LoweringError,
>)
    ensures
        ok_view(r) == lowered_template_string(*t, *db),
{
    let params = match &t.input {
        Some(args) => match lower_params(args, db) {
            Ok(p) => p,
            Err(e) => {
                return Err(e);
            },
        },
        None => {
            let v: Vec<Field> = Vec::new();
            assert(views(v@) =~= Seq::<FieldView>::empty());
            v
        },
    };
    Ok(
        Node {
            attributes: span_only(t.span),
            elem: TemplateString { name: t.name.clone(), params, content: t.template.clone() },
        },
    )
}

} // verus!
