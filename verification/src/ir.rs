//! The intermediate representation of a schema and its assembly.
use vstd::prelude::*;
use indexmap::IndexSet;
use crate::ast;
use crate::ast::ParserDatabase;
use crate::cycles::cycle_sets;
use crate::cycles::find_cycles;
use crate::cycles::named_cycles;
use crate::expression::env_vars;
use crate::expression::env_vars_of_items;
use crate::expression::extend_strings;
use crate::expression::ExpressionView;
use crate::repr::TestCase;
use crate::seqs::concat_all;
use crate::seqs::dedup;
use crate::seqs::lemma_concat_all_contains;
use crate::seqs::lemma_dedup;
use crate::text::distinct;
use crate::text::string_views;
use crate::entities::lower_field;
use crate::entities::lowered_enum_value;
use crate::entities::lowered_field;
use crate::expression::Expression;
use crate::functions::lower_prompt;
use crate::functions::lower_test_case;
use crate::functions::lowered_prompt;
use crate::functions::lowered_test_case;
use crate::lowering::field_type_attributes;
use crate::lowering::lower_type;
use crate::lowering::lowered_type;
use crate::lowering::own_constraints;
use crate::metadata::declared_attributes;
use crate::metadata::lower_expression;
use crate::metadata::lowered_expression;
use crate::metadata::node_attributes_of;
use crate::metadata::span_attributes;
use crate::metadata::span_only;
use crate::node::NodeAttributes;
use crate::node::NodeAttributesView;
use crate::repr::EnumValue;
use crate::repr::Field;
use crate::repr::FieldView;
use crate::repr::Prompt;
use crate::repr::PromptView;
use crate::repr::TestCaseView;
use crate::types::FieldType;
use crate::types::FieldTypeView;
use crate::entities::lower_class;
use crate::entities::lower_client;
use crate::entities::lower_enum;
use crate::entities::lower_retry_policy;
use crate::entities::lower_template_string;
use crate::entities::lowered_class;
use crate::entities::lowered_client;
use crate::entities::lowered_enum;
use crate::entities::lowered_retry_policy;
use crate::entities::lowered_template_string;
use crate::functions::lower_function;
use crate::functions::lowered_function;
use crate::lowering::ok_view;
use crate::lowering::LoweringError;
use crate::node::Node;
use crate::node::NodeView;
use crate::repr::Class;
use crate::repr::ClassView;
use crate::repr::Client;
use crate::repr::ClientView;
use crate::repr::Enum;
use crate::repr::EnumView;
use crate::repr::Function;
use crate::repr::FunctionView;
use crate::repr::RetryPolicy;
use crate::repr::RetryPolicyView;
use crate::repr::TemplateString;
use crate::repr::TemplateStringView;
use crate::seqs::collect_results;
use crate::seqs::lemma_collect_prefix_error;
use crate::seqs::lemma_collect_step;
use crate::seqs::views;
use crate::sorting::lemma_stable_sort_idempotent;
use crate::sorting::lemma_stable_sort_sorted;
use crate::sorting::sort_by_name;
use crate::sorting::sorted_by_name;
use crate::sorting::stable_sort;

verus! {

/// A declaration that lowers to a node of the intermediate representation.
pub trait WithRepr<T: View> {
    /// What the declaration lowers to.
    spec fn lowered(&self, db: &ParserDatabase) -> Result<NodeView<T::V>, LoweringError>;

    /// The attributes of the node of the declaration.
    spec fn lowered_attributes(&self, db: &ParserDatabase) -> NodeAttributesView;

    /// The attributes of the node of the declaration.
    fn attributes(&self, db: &ParserDatabase) -> (r: NodeAttributes)
        ensures
            r@ == self.lowered_attributes(db),
    ;

    /// Lowers the declaration without its attributes.
    fn repr(&self, db: &ParserDatabase) -> (r: Result<T, LoweringError>)
        ensures
            match r {
                Ok(t) => self.lowered(db) is Ok && self.lowered(db)->Ok_0.elem == t@,
                Err(e) => self.lowered(db) == Err::<NodeView<T::V>, LoweringError>(e),
            },
    ;

    /// Lowers the declaration with its attributes.
    fn node(&self, db: &ParserDatabase) -> (r: Result<Node<T>, LoweringError>)
        ensures
            ok_view(r) == self.lowered(db),
            r is Ok ==> r->Ok_0@.attributes == self.lowered_attributes(db),
    ;
}

/// The attributes of a node that carries nothing.
pub open spec fn no_attributes() -> NodeAttributesView {
    NodeAttributesView { meta: Seq::empty(), constraints: Seq::empty(), span: None }
}

impl WithRepr<FieldType> for ast::FieldType {
    open spec fn lowered(&self, db: &ParserDatabase) -> Result<
        NodeView<FieldTypeView>,
        LoweringError,
    > {
        match lowered_type(*self, *db) {
            Ok(t) => Ok(NodeView { attributes: self.lowered_attributes(db), elem: t }),
            Err(e) => Err(e),
        }
    }

    open spec fn lowered_attributes(&self, db: &ParserDatabase) -> NodeAttributesView {
        NodeAttributesView {
            meta: Seq::empty(),
            constraints: own_constraints(self.attributes_of()),
            span: Some(self.span_of()),
        }
    }

    fn attributes(&self, db: &ParserDatabase) -> (r: NodeAttributes) {
        field_type_attributes(self)
    }

    fn repr(&self, db: &ParserDatabase) -> (r: Result<FieldType, LoweringError>) {
        lower_type(self, db)
    }

    fn node(&self, db: &ParserDatabase) -> (r: Result<Node<FieldType>, LoweringError>) {
        match lower_type(self, db) {
            Ok(t) => Ok(Node { attributes: field_type_attributes(self), elem: t }),
            Err(e) => Err(e),
        }
    }
}

impl WithRepr<Expression> for ast::Expression {
    open spec fn lowered(&self, db: &ParserDatabase) -> Result<
        NodeView<ExpressionView>,
        LoweringError,
    > {
        match lowered_expression(*self) {
            Ok(e) => Ok(NodeView { attributes: no_attributes(), elem: e }),
            Err(e) => Err(e),
        }
    }

    open spec fn lowered_attributes(&self, db: &ParserDatabase) -> NodeAttributesView {
        no_attributes()
    }

    fn attributes(&self, db: &ParserDatabase) -> (r: NodeAttributes) {
        NodeAttributes::default()
    }

    fn repr(&self, db: &ParserDatabase) -> (r: Result<Expression, LoweringError>) {
        lower_expression(self)
    }

    fn node(&self, db: &ParserDatabase) -> (r: Result<Node<Expression>, LoweringError>) {
        match lower_expression(self) {
            Ok(e) => Ok(Node { attributes: NodeAttributes::default(), elem: e }),
            Err(e) => Err(e),
        }
    }
}

impl WithRepr<Prompt> for ast::PromptAst {
    open spec fn lowered(&self, db: &ParserDatabase) -> Result<NodeView<PromptView>, LoweringError> {
        Ok(NodeView { attributes: no_attributes(), elem: lowered_prompt(*self) })
    }

    open spec fn lowered_attributes(&self, db: &ParserDatabase) -> NodeAttributesView {
        no_attributes()
    }

    fn attributes(&self, db: &ParserDatabase) -> (r: NodeAttributes) {
        NodeAttributes::default()
    }

    fn repr(&self, db: &ParserDatabase) -> (r: Result<Prompt, LoweringError>) {
        Ok(lower_prompt(self))
    }

    fn node(&self, db: &ParserDatabase) -> (r: Result<Node<Prompt>, LoweringError>) {
        Ok(Node { attributes: NodeAttributes::default(), elem: lower_prompt(self) })
    }
}

impl WithRepr<EnumValue> for ast::EnumValueDecl {
    open spec fn lowered(&self, db: &ParserDatabase) -> Result<NodeView<Seq<char>>, LoweringError> {
        Ok(lowered_enum_value(*self))
    }

    open spec fn lowered_attributes(&self, db: &ParserDatabase) -> NodeAttributesView {
        node_attributes_of(self.attributes, self.span)
    }

    fn attributes(&self, db: &ParserDatabase) -> (r: NodeAttributes) {
        declared_attributes(&self.attributes, self.span)
    }

    fn repr(&self, db: &ParserDatabase) -> (r: Result<EnumValue, LoweringError>) {
        Ok(EnumValue(self.name.clone()))
    }

    fn node(&self, db: &ParserDatabase) -> (r: Result<Node<EnumValue>, LoweringError>) {
        Ok(
            Node {
                attributes: declared_attributes(&self.attributes, self.span),
                elem: EnumValue(self.name.clone()),
            },
        )
    }
}

impl WithRepr<Enum> for ast::EnumDecl {
    open spec fn lowered(&self, db: &ParserDatabase) -> Result<NodeView<EnumView>, LoweringError> {
        Ok(lowered_enum(*self))
    }

    open spec fn lowered_attributes(&self, db: &ParserDatabase) -> NodeAttributesView {
        node_attributes_of(self.attributes, self.span)
    }

    fn attributes(&self, db: &ParserDatabase) -> (r: NodeAttributes) {
        declared_attributes(&self.attributes, self.span)
    }

    fn repr(&self, db: &ParserDatabase) -> (r: Result<Enum, LoweringError>) {
        Ok(lower_enum(self).elem)
    }

    fn node(&self, db: &ParserDatabase) -> (r: Result<Node<Enum>, LoweringError>) {
        Ok(lower_enum(self))
    }
}

impl WithRepr<Field> for ast::FieldDecl {
    open spec fn lowered(&self, db: &ParserDatabase) -> Result<NodeView<FieldView>, LoweringError> {
        lowered_field(*self, *db)
    }

    open spec fn lowered_attributes(&self, db: &ParserDatabase) -> NodeAttributesView {
        node_attributes_of(self.attributes, self.span)
    }

    fn attributes(&self, db: &ParserDatabase) -> (r: NodeAttributes) {
        declared_attributes(&self.attributes, self.span)
    }

    fn repr(&self, db: &ParserDatabase) -> (r: Result<Field, LoweringError>) {
        match lower_field(self, db) {
            Ok(n) => Ok(n.elem),
            Err(e) => Err(e),
        }
    }

    fn node(&self, db: &ParserDatabase) -> (r: Result<Node<Field>, LoweringError>) {
        lower_field(self, db)
    }
}

impl WithRepr<Class> for ast::ClassDecl {
    open spec fn lowered(&self, db: &ParserDatabase) -> Result<NodeView<ClassView>, LoweringError> {
        lowered_class(*self, *db)
    }

    open spec fn lowered_attributes(&self, db: &ParserDatabase) -> NodeAttributesView {
        node_attributes_of(self.attributes, self.span)
    }

    fn attributes(&self, db: &ParserDatabase) -> (r: NodeAttributes) {
        declared_attributes(&self.attributes, self.span)
    }

    fn repr(&self, db: &ParserDatabase) -> (r: Result<Class, LoweringError>) {
        match lower_class(self, db) {
            Ok(n) => Ok(n.elem),
            Err(e) => Err(e),
        }
    }

    fn node(&self, db: &ParserDatabase) -> (r: Result<Node<Class>, LoweringError>) {
        lower_class(self, db)
    }
}

impl WithRepr<TestCase> for ast::TestDecl {
    open spec fn lowered(&self, db: &ParserDatabase) -> Result<
        NodeView<TestCaseView>,
        LoweringError,
    > {
        lowered_test_case(*self)
    }

    open spec fn lowered_attributes(&self, db: &ParserDatabase) -> NodeAttributesView {
        span_attributes(self.span)
    }

    fn attributes(&self, db: &ParserDatabase) -> (r: NodeAttributes) {
        span_only(self.span)
    }

    fn repr(&self, db: &ParserDatabase) -> (r: Result<TestCase, LoweringError>) {
        match lower_test_case(self) {
            Ok(n) => Ok(n.elem),
            Err(e) => Err(e),
        }
    }

    fn node(&self, db: &ParserDatabase) -> (r: Result<Node<TestCase>, LoweringError>) {
        lower_test_case(self)
    }
}

impl WithRepr<Function> for ast::FunctionDecl {
    open spec fn lowered(&self, db: &ParserDatabase) -> Result<
        NodeView<FunctionView>,
        LoweringError,
    > {
        lowered_function(*self, *db)
    }

    open spec fn lowered_attributes(&self, db: &ParserDatabase) -> NodeAttributesView {
        span_attributes(self.span)
    }

    fn attributes(&self, db: &ParserDatabase) -> (r: NodeAttributes) {
        span_only(self.span)
    }

    fn repr(&self, db: &ParserDatabase) -> (r: Result<Function, LoweringError>) {
        match lower_function(self, db) {
            Ok(n) => Ok(n.elem),
            Err(e) => Err(e),
        }
    }

    fn node(&self, db: &ParserDatabase) -> (r: Result<Node<Function>, LoweringError>) {
        lower_function(self, db)
    }
}

impl WithRepr<Client> for ast::ClientDecl {
    open spec fn lowered(&self, db: &ParserDatabase) -> Result<NodeView<ClientView>, LoweringError> {
        lowered_client(*self)
    }

    open spec fn lowered_attributes(&self, db: &ParserDatabase) -> NodeAttributesView {
        span_attributes(self.span)
    }

    fn attributes(&self, db: &ParserDatabase) -> (r: NodeAttributes) {
        span_only(self.span)
    }

    fn repr(&self, db: &ParserDatabase) -> (r: Result<Client, LoweringError>) {
        match lower_client(self) {
            Ok(n) => Ok(n.elem),
            Err(e) => Err(e),
        }
    }

    fn node(&self, db: &ParserDatabase) -> (r: Result<Node<Client>, LoweringError>) {
        lower_client(self)
    }
}

impl WithRepr<RetryPolicy> for ast::RetryPolicyDecl {
    open spec fn lowered(&self, db: &ParserDatabase) -> Result<
        NodeView<RetryPolicyView>,
        LoweringError,
    > {
        lowered_retry_policy(*self)
    }

    open spec fn lowered_attributes(&self, db: &ParserDatabase) -> NodeAttributesView {
        span_attributes(self.span)
    }

    fn attributes(&self, db: &ParserDatabase) -> (r: NodeAttributes) {
        span_only(self.span)
    }

    fn repr(&self, db: &ParserDatabase) -> (r: Result<RetryPolicy, LoweringError>) {
        match lower_retry_policy(self) {
            Ok(n) => Ok(n.elem),
            Err(e) => Err(e),
        }
    }

    fn node(&self, db: &ParserDatabase) -> (r: Result<Node<RetryPolicy>, LoweringError>) {
        lower_retry_policy(self)
    }
}

impl WithRepr<TemplateString> for ast::TemplateStringDecl {
    open spec fn lowered(&self, db: &ParserDatabase) -> Result<
        NodeView<TemplateStringView>,
        LoweringError,
    > {
        lowered_template_string(*self, *db)
    }

    open spec fn lowered_attributes(&self, db: &ParserDatabase) -> NodeAttributesView {
        span_attributes(self.span)
    }

    fn attributes(&self, db: &ParserDatabase) -> (r: NodeAttributes) {
        span_only(self.span)
    }

    fn repr(&self, db: &ParserDatabase) -> (r: Result<TemplateString, LoweringError>) {
        match lower_template_string(self, db) {
            Ok(n) => Ok(n.elem),
            Err(e) => Err(e),
        }
    }

    fn node(&self, db: &ParserDatabase) -> (r: Result<Node<TemplateString>, LoweringError>) {
        lower_template_string(self, db)
    }
}

/// What each declaration of a list lowers to.
pub open spec fn lowered_nodes<T: View, D: WithRepr<T>>(decls: Seq<D>, db: &ParserDatabase) -> Seq<
    Result<NodeView<T::V>, LoweringError>,
> {
    Seq::new(decls.len(), |i: int| decls[i].lowered(db))
}

/// What a list of declarations lowers to: the nodes in the order of the
/// declarations, or the failure of the first declaration that fails.
pub open spec fn lowered_all<T: View, D: WithRepr<T>>(decls: Seq<D>, db: &ParserDatabase) -> Result<
    Seq<NodeView<T::V>>,
    LoweringError,
> {
    collect_results(lowered_nodes::<T, D>(decls, db))
}

/// Lowers a list of declarations; the first that fails, fails the list.
pub fn lower_all<T: View, D: WithRepr<T>>(decls: &Vec<D>, db: &ParserDatabase) -> (r: Result<
    Vec<Node<T>>,
    LoweringError,
>)
    ensures
        match r {
            Ok(v) => lowered_all::<T, D>(decls@, db) == Ok::<Seq<NodeView<T::V>>, LoweringError>(
                views(v@),
            ),
            Err(e) => lowered_all::<T, D>(decls@, db) == Err::<Seq<NodeView<T::V>>, LoweringError>(
                e,
            ),
        },
{
    let mut out: Vec<Node<T>> = Vec::new();
    let ghost rs = lowered_nodes::<T, D>(decls@, db);
    let mut i: usize = 0;
    assert(views(out@) =~= Seq::<NodeView<T::V>>::empty());
    assert(rs.take(0) =~= Seq::empty());
    while i < decls.len()
        invariant
            i <= decls.len(),
            rs == lowered_nodes::<T, D>(decls@, db),
            collect_results(rs.take(i as int)) == Ok::<Seq<NodeView<T::V>>, LoweringError>(
                views(out@),
            ),
        decreases decls.len() - i,
    {
        let ghost before = out@;
        proof {
            lemma_collect_step(rs, i as int);
        }
        match decls[i].node(db) {
            Ok(n) => {
                out.push(n);
                assert(views(out@) =~= views(before).push(n@));
            },
            Err(e) => {
                proof {
                    lemma_collect_prefix_error(rs, i as int + 1);
                }
                return Err(e);
            },
        }
        i += 1;
    }
    assert(rs.take(decls.len() as int) =~= rs);
    Ok(out)
}

/// Settings that travel with the intermediate representation.
#[derive(Clone, Copy, Debug, PartialEq, Eq)]
pub struct Configuration {}

impl Configuration {
    /// The default settings.
    pub fn new() -> (r: Configuration) {
        Configuration {  }
    }
}

/// The intermediate representation of a schema: every entity, each kind in
/// order of name, and the cycles among the classes.
#[derive(Debug, PartialEq)]
pub struct IntermediateRepr {
    pub enums: Vec<Node<Enum>>,
    pub classes: Vec<Node<Class>>,
    /// The strongly connected components of the references between classes
    /// that hold a cycle.
    pub finite_recursive_cycles: Vec<IndexSet<String>>,
    pub functions: Vec<Node<Function>>,
    pub clients: Vec<Node<Client>>,
    pub retry_policies: Vec<Node<RetryPolicy>>,
    pub template_strings: Vec<Node<TemplateString>>,
    pub configuration: Configuration,
}

/// Mathematical model of an [`IntermediateRepr`].
pub ghost struct IntermediateReprView {
    pub enums: Seq<NodeView<EnumView>>,
    pub classes: Seq<NodeView<ClassView>>,
    pub finite_recursive_cycles: Seq<Seq<Seq<char>>>,
    pub functions: Seq<NodeView<FunctionView>>,
    pub clients: Seq<NodeView<ClientView>>,
    pub retry_policies: Seq<NodeView<RetryPolicyView>>,
    pub template_strings: Seq<NodeView<TemplateStringView>>,
}

impl View for IntermediateRepr {
    type V = IntermediateReprView;

    open spec fn view(&self) -> IntermediateReprView {
        IntermediateReprView {
            enums: views(self.enums@),
            classes: views(self.classes@),
            finite_recursive_cycles: cycle_sets(self.finite_recursive_cycles@),
            functions: views(self.functions@),
            clients: views(self.clients@),
            retry_policies: views(self.retry_policies@),
            template_strings: views(self.template_strings@),
        }
    }
}

impl IntermediateReprView {
    /// Every kind of entity is in order of name, and the cycles are those of
    /// the classes.
    pub open spec fn well_formed(self) -> bool {
        &&& sorted_by_name::<Node<Enum>>(self.enums)
        &&& sorted_by_name::<Node<Class>>(self.classes)
        &&& sorted_by_name::<Node<Function>>(self.functions)
        &&& sorted_by_name::<Node<Client>>(self.clients)
        &&& sorted_by_name::<Node<RetryPolicy>>(self.retry_policies)
        &&& sorted_by_name::<Node<TemplateString>>(self.template_strings)
        &&& self.finite_recursive_cycles == named_cycles(self.classes)
    }
}

/// The intermediate representation of a schema.
///
/// Enums, classes, functions, clients, retry policies and template strings are
/// lowered in this order, each kind in the order of its declarations; the first
/// failure fails the whole. Each kind is then put in order of name, and the
/// cycles are those of the classes in that order.
pub open spec fn assembled(db: ParserDatabase) -> Result<IntermediateReprView, LoweringError> {
    match lowered_all::<Enum, ast::EnumDecl>(db.enums@, &db) {
        Err(e) => Err(e),
        Ok(enums) => match lowered_all::<Class, ast::ClassDecl>(db.classes@, &db) {
            Err(e) => Err(e),
            Ok(classes) => match lowered_all::<Function, ast::FunctionDecl>(db.functions@, &db) {
                Err(e) => Err(e),
                Ok(functions) => match lowered_all::<Client, ast::ClientDecl>(db.clients@, &db) {
                    Err(e) => Err(e),
                    Ok(clients) => match lowered_all::<RetryPolicy, ast::RetryPolicyDecl>(
                        db.retry_policies@,
                        &db,
                    ) {
                        Err(e) => Err(e),
                        Ok(retry_policies) => match lowered_all::<
                            TemplateString,
                            ast::TemplateStringDecl,
                        >(db.template_strings@, &db) {
                            Err(e) => Err(e),
                            Ok(template_strings) => Ok(
                                IntermediateReprView {
                                    enums: stable_sort::<Node<Enum>>(enums),
                                    classes: stable_sort::<Node<Class>>(classes),
                                    finite_recursive_cycles: named_cycles(
                                        stable_sort::<Node<Class>>(classes),
                                    ),
                                    functions: stable_sort::<Node<Function>>(functions),
                                    clients: stable_sort::<Node<Client>>(clients),
                                    retry_policies: stable_sort::<Node<RetryPolicy>>(
                                        retry_policies,
                                    ),
                                    template_strings: stable_sort::<Node<TemplateString>>(
                                        template_strings,
                                    ),
                                },
                            ),
                        },
                    },
                },
            },
        },
    }
}

impl IntermediateRepr {
    /// An intermediate representation without entities.
    pub fn create_empty() -> (r: IntermediateRepr)
        ensures
            r@.well_formed(),
            r@ == (IntermediateReprView {
                enums: Seq::empty(),
                classes: Seq::empty(),
                finite_recursive_cycles: Seq::empty(),
                functions: Seq::empty(),
                clients: Seq::empty(),
                retry_policies: Seq::empty(),
                template_strings: Seq::empty(),
            }),
    {
        let r = IntermediateRepr {
            enums: Vec::new(),
            classes: Vec::new(),
            finite_recursive_cycles: Vec::new(),
            functions: Vec::new(),
            clients: Vec::new(),
            retry_policies: Vec::new(),
            template_strings: Vec::new(),
            configuration: Configuration::new(),
        };
        assert(r@.enums =~= Seq::empty());
        assert(r@.classes =~= Seq::empty());
        assert(r@.finite_recursive_cycles =~= Seq::empty());
        assert(r@.functions =~= Seq::empty());
        assert(r@.clients =~= Seq::empty());
        assert(r@.retry_policies =~= Seq::empty());
        assert(r@.template_strings =~= Seq::empty());
        assert(named_cycles(r@.classes) =~= Seq::empty()) by {
            assert(crate::graph::leaders(crate::cycles::class_graph(r@.classes)) =~= Seq::empty());
        }
        r
    }

    /// The settings that the representation was built with.
    pub fn configuration(&self) -> (r: &Configuration)
        ensures
            r == &self.configuration,
    {
        &self.configuration
    }

    /// The cycles among the classes, each as the set of the names of its
    /// classes.
    pub fn finite_recursive_cycles(&self) -> (r: &Vec<IndexSet<String>>)
        ensures
            r == &self.finite_recursive_cycles,
    {
        &self.finite_recursive_cycles
    }

    /// Builds the intermediate representation of a parsed schema.
    ///
    /// The result is exactly [`assembled`]: it fails on the first declaration
    /// that cannot be lowered, and otherwise holds every entity in order of
    /// name with the cycles of its classes.
    pub fn from_parser_database(db: &ParserDatabase, configuration: Configuration) -> (r: Result<
        IntermediateRepr,
        LoweringError,
    >)
        ensures
            match r {
                Ok(ir) => assembled(*db) == Ok::<IntermediateReprView, LoweringError>(ir@)
                    && ir.configuration == configuration && ir@.well_formed(),
                Err(e) => assembled(*db) == Err::<IntermediateReprView, LoweringError>(e),
            },
    {
        let enums = match lower_all::<Enum, ast::EnumDecl>(&db.enums, db) {
            Ok(v) => v,
            Err(e) => {
                return Err(e);
            },
        };
        let classes = match lower_all::<Class, ast::ClassDecl>(&db.classes, db) {
            Ok(v) => v,
            Err(e) => {
                return Err(e);
            },
        };
        let functions = match lower_all::<Function, ast::FunctionDecl>(&db.functions, db) {
            Ok(v) => v,
            Err(e) => {
                return Err(e);
            },
        };
        let clients = match lower_all::<Client, ast::ClientDecl>(&db.clients, db) {
            Ok(v) => v,
            Err(e) => {
                return Err(e);
            },
        };
        let retry_policies = match lower_all::<RetryPolicy, ast::RetryPolicyDecl>(
            &db.retry_policies,
            db,
        ) {
            Ok(v) => v,
            Err(e) => {
                return Err(e);
            },
        };
        let template_strings = match lower_all::<TemplateString, ast::TemplateStringDecl>(
            &db.template_strings,
            db,
        ) {
            Ok(v) => v,
            Err(e) => {
                return Err(e);
            },
        };
        let classes = sort_by_name(classes);
        let finite_recursive_cycles = find_cycles(&classes);
        Ok(
            IntermediateRepr {
                enums: sort_by_name(enums),
                classes,
                finite_recursive_cycles,
                functions: sort_by_name(functions),
                clients: sort_by_name(clients),
                retry_policies: sort_by_name(retry_policies),
                template_strings: sort_by_name(template_strings),
                configuration,
            },
        )
    }
}

/// The environment variables of each of a list of options.
pub open spec fn option_env_parts(options: Seq<(Seq<char>, ExpressionView)>) -> Seq<
    Seq<Seq<char>>,
> {
    Seq::new(options.len(), |i: int| env_vars(options[i].1))
}

/// The environment variables that a list of options names, in order of
/// occurrence and with repetitions.
pub open spec fn options_env_vars(options: Seq<(Seq<char>, ExpressionView)>) -> Seq<Seq<char>> {
    concat_all(option_env_parts(options))
}

/// The environment variables of each of a list of clients.
pub open spec fn client_env_parts(clients: Seq<NodeView<ClientView>>) -> Seq<Seq<Seq<char>>> {
    Seq::new(clients.len(), |i: int| options_env_vars(clients[i].elem.options))
}

/// The environment variables that the options of a list of clients name, in
/// order of occurrence and with repetitions.
pub open spec fn clients_env_vars(clients: Seq<NodeView<ClientView>>) -> Seq<Seq<char>> {
    concat_all(client_env_parts(clients))
}

impl Client {
    /// The environment variables that the options of the client name, in order
    /// of occurrence and with repetitions.
    pub fn required_env_vars(&self) -> (r: Vec<String>)
        ensures
            string_views(r@) == options_env_vars(self@.options),
    {
        let ghost parts = option_env_parts(self@.options);
        let mut out: Vec<String> = Vec::new();
        let mut i: usize = 0;
        assert(string_views(out@) =~= concat_all(parts.take(0)));
        while i < self.options.len()
            invariant
                i <= self.options.len(),
                parts == option_env_parts(self@.options),
                string_views(out@) == concat_all(parts.take(i as int)),
            decreases self.options.len() - i,
        {
            let more = self.options[i].1.required_env_vars();
            proof {
                assert(parts.take(i + 1).drop_last() =~= parts.take(i as int));
                assert(parts.take(i + 1).last() == env_vars(self.options@[i as int].1@));
            }
            extend_strings(&mut out, &more);
            i += 1;
        }
        assert(parts.take(self.options.len() as int) =~= parts);
        out
    }
}

/// A view of an entity together with the representation that holds it.
#[derive(Clone, Copy)]
pub struct Walker<'db, I> {
    /// The representation being walked.
    pub db: &'db IntermediateRepr,
    /// The entity in focus.
    pub item: I,
}

fn walk_all<'a, T>(db: &'a IntermediateRepr, items: &'a Vec<T>) -> (r: Vec<Walker<'a, &'a T>>)
    ensures
        r@.len() == items@.len(),
        forall|i: int|
            0 <= i < r@.len() ==> (#[trigger] r@[i]).db == db && *r@[i].item == items@[i],
{
    let mut out: Vec<Walker<'a, &'a T>> = Vec::new();
    let mut i: usize = 0;
    while i < items.len()
        invariant
            i <= items.len(),
            out@.len() == i,
            forall|j: int| 0 <= j < i ==> (#[trigger] out@[j]).db == db && *out@[j].item == items@[j],
        decreases items.len() - i,
    {
        out.push(Walker { db, item: &items[i] });
        i += 1;
    }
    out
}

/// Each function with each of its tests, function by function.
pub open spec fn test_pair_parts(functions: Seq<Node<Function>>) -> Seq<
    Seq<(Node<Function>, Node<TestCase>)>,
> {
    Seq::new(
        functions.len(),
        |i: int|
            Seq::new(
                functions[i].elem.tests@.len(),
                |j: int| (functions[i], functions[i].elem.tests@[j]),
            ),
    )
}

/// The entities that a list of walkers focuses on.
pub open spec fn walked_pairs<'a>(
    ws: Seq<Walker<'a, (&'a Node<Function>, &'a Node<TestCase>)>>,
) -> Seq<(Node<Function>, Node<TestCase>)> {
    Seq::new(ws.len(), |i: int| (*ws[i].item.0, *ws[i].item.1))
}

impl IntermediateRepr {
    /// The names of the environment variables that the options of the clients
    /// refer to, each once, in order of first occurrence.
    pub fn required_env_vars(&self) -> (r: Vec<String>)
        ensures
            string_views(r@) == dedup(clients_env_vars(self@.clients)),
    {
        let ghost parts = client_env_parts(self@.clients);
        let mut all: Vec<String> = Vec::new();
        let mut i: usize = 0;
        assert(string_views(all@) =~= concat_all(parts.take(0)));
        while i < self.clients.len()
            invariant
                i <= self.clients.len(),
                parts == client_env_parts(self@.clients),
                string_views(all@) == concat_all(parts.take(i as int)),
            decreases self.clients.len() - i,
        {
            let more = self.clients[i].elem.required_env_vars();
            proof {
                assert(parts.take(i + 1).drop_last() =~= parts.take(i as int));
                assert(parts.take(i + 1).last() == options_env_vars(
                    self.clients@[i as int]@.elem.options,
                ));
            }
            extend_strings(&mut all, &more);
            i += 1;
        }
        assert(parts.take(self.clients.len() as int) =~= parts);
        distinct(&all)
    }

    /// A walker for each enum, in order.
    pub fn walk_enums<'a>(&'a self) -> (r: Vec<Walker<'a, &'a Node<Enum>>>)
        ensures
            r@.len() == self.enums@.len(),
            forall|i: int|
                0 <= i < r@.len() ==> (#[trigger] r@[i]).db == self && *r@[i].item
                    == self.enums@[i],
    {
        walk_all(self, &self.enums)
    }

    /// A walker for each class, in order.
    pub fn walk_classes<'a>(&'a self) -> (r: Vec<Walker<'a, &'a Node<Class>>>)
        ensures
            r@.len() == self.classes@.len(),
            forall|i: int|
                0 <= i < r@.len() ==> (#[trigger] r@[i]).db == self && *r@[i].item
                    == self.classes@[i],
    {
        walk_all(self, &self.classes)
    }

    /// The names of the functions, in order.
    pub fn function_names(&self) -> (r: Vec<&str>)
        ensures
            r@.len() == self.functions@.len(),
            forall|i: int| 0 <= i < r@.len() ==> (#[trigger] r@[i])@ == self.functions@[i].elem.name@,
    {
        let mut out: Vec<&str> = Vec::new();
        let mut i: usize = 0;
        while i < self.functions.len()
            invariant
                i <= self.functions.len(),
                out@.len() == i,
                forall|j: int|
                    0 <= j < i ==> (#[trigger] out@[j])@ == self.functions@[j].elem.name@,
            decreases self.functions.len() - i,
        {
            out.push(self.functions[i].elem.name());
            i += 1;
        }
        out
    }

    /// A walker for each function, in order.
    pub fn walk_functions<'a>(&'a self) -> (r: Vec<Walker<'a, &'a Node<Function>>>)
        ensures
            r@.len() == self.functions@.len(),
            forall|i: int|
                0 <= i < r@.len() ==> (#[trigger] r@[i]).db == self && *r@[i].item
                    == self.functions@[i],
    {
        walk_all(self, &self.functions)
    }

    /// A walker for each test of each function: the tests of the first
    /// function in their order, then those of the second, and so on.
    pub fn walk_tests<'a>(&'a self) -> (r: Vec<
        Walker<'a, (&'a Node<Function>, &'a Node<TestCase>)>,
    >)
        ensures
            walked_pairs(r@) == concat_all(test_pair_parts(self.functions@)),
            forall|i: int| 0 <= i < r@.len() ==> (#[trigger] r@[i]).db == self,
    {
        let ghost parts = test_pair_parts(self.functions@);
        let mut out: Vec<Walker<'a, (&'a Node<Function>, &'a Node<TestCase>)>> = Vec::new();
        let mut i: usize = 0;
        assert(walked_pairs(out@) =~= concat_all(parts.take(0)));
        while i < self.functions.len()
            invariant
                i <= self.functions.len(),
                parts == test_pair_parts(self.functions@),
                walked_pairs(out@) == concat_all(parts.take(i as int)),
                forall|k: int| 0 <= k < out@.len() ==> (#[trigger] out@[k]).db == self,
            decreases self.functions.len() - i,
        {
            let f = &self.functions[i];
            let ghost done = walked_pairs(out@);
            let mut j: usize = 0;
            assert(parts.take(i + 1).drop_last() =~= parts.take(i as int));
            assert(done + parts[i as int].take(0) =~= done);
            while j < f.elem.tests.len()
                invariant
                    j <= f.elem.tests.len(),
                    i < self.functions.len(),
                    *f == self.functions@[i as int],
                    parts == test_pair_parts(self.functions@),
                    walked_pairs(out@) == done + parts[i as int].take(j as int),
                    forall|k: int| 0 <= k < out@.len() ==> (#[trigger] out@[k]).db == self,
                decreases f.elem.tests.len() - j,
            {
                let ghost before = out@;
                out.push(Walker { db: self, item: (f, &f.elem.tests[j]) });
                assert(forall|k: int| 0 <= k < before.len() ==> out@[k] == before[k]);
                assert(walked_pairs(out@) =~= walked_pairs(before).push(
                    (*f, f.elem.tests@[j as int]),
                ));
                assert(parts[i as int].take(j + 1) =~= parts[i as int].take(j as int).push(
                    (*f, f.elem.tests@[j as int]),
                ));
                j += 1;
            }
            assert(parts[i as int].take(f.elem.tests.len() as int) =~= parts[i as int]);
            assert(parts.take(i + 1).last() == parts[i as int]);
            i += 1;
        }
        assert(parts.take(self.functions.len() as int) =~= parts);
        out
    }

    /// A walker for each client, in order.
    pub fn walk_clients<'a>(&'a self) -> (r: Vec<Walker<'a, &'a Node<Client>>>)
        ensures
            r@.len() == self.clients@.len(),
            forall|i: int|
                0 <= i < r@.len() ==> (#[trigger] r@[i]).db == self && *r@[i].item
                    == self.clients@[i],
    {
        walk_all(self, &self.clients)
    }

    /// A walker for each template string, in order.
    pub fn walk_template_strings<'a>(&'a self) -> (r: Vec<Walker<'a, &'a Node<TemplateString>>>)
        ensures
            r@.len() == self.template_strings@.len(),
            forall|i: int|
                0 <= i < r@.len() ==> (#[trigger] r@[i]).db == self && *r@[i].item
                    == self.template_strings@[i],
    {
        walk_all(self, &self.template_strings)
    }

    /// A walker for each retry policy, in order.
    pub fn walk_retry_policies<'a>(&'a self) -> (r: Vec<Walker<'a, &'a Node<RetryPolicy>>>)
        ensures
            r@.len() == self.retry_policies@.len(),
            forall|i: int|
                0 <= i < r@.len() ==> (#[trigger] r@[i]).db == self && *r@[i].item
                    == self.retry_policies@[i],
    {
        walk_all(self, &self.retry_policies)
    }
}

/// Assembly is a function of the schema: two representations of one schema
/// are the same.
pub proof fn lemma_assembly_is_a_function(
    db: ParserDatabase,
    first: IntermediateRepr,
    second: IntermediateRepr,
)
    requires
        assembled(db) == Ok::<IntermediateReprView, LoweringError>(first@),
        assembled(db) == Ok::<IntermediateReprView, LoweringError>(second@),
    ensures
        first@ == second@,
{
}

/// Every kind of entity of an assembled representation is in order of name,
/// and sorting it again changes nothing.
pub proof fn lemma_assembled_in_order(db: ParserDatabase)
    requires
        assembled(db) is Ok,
    ensures
        ({
            let ir = assembled(db)->Ok_0;
            &&& sorted_by_name::<Node<Enum>>(ir.enums)
            &&& sorted_by_name::<Node<Class>>(ir.classes)
            &&& sorted_by_name::<Node<Function>>(ir.functions)
            &&& sorted_by_name::<Node<Client>>(ir.clients)
            &&& sorted_by_name::<Node<RetryPolicy>>(ir.retry_policies)
            &&& sorted_by_name::<Node<TemplateString>>(ir.template_strings)
            &&& stable_sort::<Node<Enum>>(ir.enums) == ir.enums
            &&& stable_sort::<Node<Class>>(ir.classes) == ir.classes
            &&& stable_sort::<Node<Function>>(ir.functions) == ir.functions
            &&& stable_sort::<Node<Client>>(ir.clients) == ir.clients
            &&& stable_sort::<Node<RetryPolicy>>(ir.retry_policies) == ir.retry_policies
            &&& stable_sort::<Node<TemplateString>>(ir.template_strings) == ir.template_strings
        }),
{
    let enums = lowered_all::<Enum, ast::EnumDecl>(db.enums@, &db)->Ok_0;
    let classes = lowered_all::<Class, ast::ClassDecl>(db.classes@, &db)->Ok_0;
    let functions = lowered_all::<Function, ast::FunctionDecl>(db.functions@, &db)->Ok_0;
    let clients = lowered_all::<Client, ast::ClientDecl>(db.clients@, &db)->Ok_0;
    let retry_policies = lowered_all::<RetryPolicy, ast::RetryPolicyDecl>(
        db.retry_policies@,
        &db,
    )->Ok_0;
    let template_strings = lowered_all::<TemplateString, ast::TemplateStringDecl>(
        db.template_strings@,
        &db,
    )->Ok_0;
    lemma_stable_sort_sorted::<Node<Enum>>(enums);
    lemma_stable_sort_sorted::<Node<Class>>(classes);
    lemma_stable_sort_sorted::<Node<Function>>(functions);
    lemma_stable_sort_sorted::<Node<Client>>(clients);
    lemma_stable_sort_sorted::<Node<RetryPolicy>>(retry_policies);
    lemma_stable_sort_sorted::<Node<TemplateString>>(template_strings);
    lemma_stable_sort_idempotent::<Node<Enum>>(enums);
    lemma_stable_sort_idempotent::<Node<Class>>(classes);
    lemma_stable_sort_idempotent::<Node<Function>>(functions);
    lemma_stable_sort_idempotent::<Node<Client>>(clients);
    lemma_stable_sort_idempotent::<Node<RetryPolicy>>(retry_policies);
    lemma_stable_sort_idempotent::<Node<TemplateString>>(template_strings);
}

/// Every environment variable that an option of a client names is required,
/// and is listed once.
pub proof fn lemma_required_env_vars(clients: Seq<NodeView<ClientView>>, c: int, o: int, name: Seq<
    char,
>)
    requires
        0 <= c < clients.len(),
        0 <= o < clients[c].elem.options.len(),
        env_vars(clients[c].elem.options[o].1).contains(name),
    ensures
        dedup(clients_env_vars(clients)).contains(name),
        forall|i: int, j: int|
            0 <= i < j < dedup(clients_env_vars(clients)).len() ==> (#[trigger] dedup(
                clients_env_vars(clients),
            )[i]) != (#[trigger] dedup(clients_env_vars(clients))[j]),
{
    let options = clients[c].elem.options;
    lemma_concat_all_contains(option_env_parts(options), name);
    assert(option_env_parts(options)[o].contains(name));
    lemma_concat_all_contains(client_env_parts(clients), name);
    assert(client_env_parts(clients)[c].contains(name));
    lemma_dedup(clients_env_vars(clients));
}

/// An environment variable that an item of a list names is named by the list.
pub proof fn lemma_env_var_of_item(items: Seq<ExpressionView>, i: int, name: Seq<char>)
    requires
        0 <= i < items.len(),
        env_vars(items[i]).contains(name),
    ensures
        env_vars(ExpressionView::List(items)).contains(name),
{
    lemma_concat_all_contains(env_vars_of_items(items), name);
    assert(env_vars_of_items(items)[i].contains(name));
}

} // verus!
