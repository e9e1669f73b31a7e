//! The entities of the intermediate representation and their models.
use vstd::prelude::*;
use std::collections::HashSet;
use indexmap::IndexMap;
use crate::ast::RetryPolicyStrategy;
use crate::ast::Span;
use crate::collections::lookup;
use crate::collections::map_entries;
use crate::collections::map_get;
use crate::collections::override_entries;
use crate::collections::override_lookup;
use crate::collections::overrides_get;
use crate::expression::Expression;
use crate::expression::ExpressionView;
use crate::node::entry_views;
use crate::node::Node;
use crate::node::NodeView;
use crate::seqs::views;
use crate::text::chars_of;
use crate::types::FieldType;
use crate::types::FieldTypeView;

verus! {

/// The models of a list of named types, in order.
pub open spec fn named_type_views(s: Seq<(String, FieldType)>) -> Seq<(Seq<char>, FieldTypeView)> {
    Seq::new(s.len(), |i: int| (s[i].0@, s[i].1@))
}

/// The models of a list of named expressions, in order.
pub open spec fn option_views(s: Seq<(String, Expression)>) -> Seq<(Seq<char>, ExpressionView)> {
    Seq::new(s.len(), |i: int| (s[i].0@, s[i].1@))
}

/// The model of an optional string.
pub open spec fn optional_text(s: Option<String>) -> Option<Seq<char>> {
    match s {
        Some(t) => Some(t@),
        None => None,
    }
}

/// One value of an enum.
#[derive(Debug, PartialEq, Eq)]
pub struct EnumValue(pub String);

impl View for EnumValue {
    type V = Seq<char>;

    open spec fn view(&self) -> Seq<char> {
        self.0@
    }
}

/// An enum with its values.
#[derive(Debug, PartialEq)]
pub struct Enum {
    pub name: String,
    pub values: Vec<Node<EnumValue>>,
}

/// Mathematical model of an [`Enum`].
pub ghost struct EnumView {
    pub name: Seq<char>,
    pub values: Seq<NodeView<Seq<char>>>,
}

impl View for Enum {
    type V = EnumView;

    open spec fn view(&self) -> EnumView {
        EnumView { name: self.name@, values: views(self.values@) }
    }
}

/// A named field with its type.
#[derive(Debug, PartialEq)]
pub struct Field {
    pub name: String,
    pub field_type: Node<FieldType>,
}

/// Mathematical model of a [`Field`].
pub ghost struct FieldView {
    pub name: Seq<char>,
    pub field_type: NodeView<FieldTypeView>,
}

impl View for Field {
    type V = FieldView;

    open spec fn view(&self) -> FieldView {
        FieldView { name: self.name@, field_type: self.field_type@ }
    }
}

/// A class: its fields and the parameters of its definition.
#[derive(Debug, PartialEq)]
pub struct Class {
    pub name: String,
    pub static_fields: Vec<Node<Field>>,
    pub inputs: Vec<(String, FieldType)>,
}

/// Mathematical model of a [`Class`].
pub ghost struct ClassView {
    pub name: Seq<char>,
    pub static_fields: Seq<NodeView<FieldView>>,
    pub inputs: Seq<(Seq<char>, FieldTypeView)>,
}

impl View for Class {
    type V = ClassView;

    open spec fn view(&self) -> ClassView {
        ClassView {
            name: self.name@,
            static_fields: views(self.static_fields@),
            inputs: named_type_views(self.inputs@),
        }
    }
}

impl Class {
    /// The parameters of the class definition.
    pub fn inputs(&self) -> (r: &Vec<(String, FieldType)>)
        ensures
            r == &self.inputs,
    {
        &self.inputs
    }
}

/// A template string with its parameters.
#[derive(Debug, PartialEq)]
pub struct TemplateString {
    pub name: String,
    pub params: Vec<Field>,
    pub content: String,
}

/// Mathematical model of a [`TemplateString`].
pub ghost struct TemplateStringView {
    pub name: Seq<char>,
    pub params: Seq<FieldView>,
    pub content: Seq<char>,
}

impl View for TemplateString {
    type V = TemplateStringView;

    open spec fn view(&self) -> TemplateStringView {
        TemplateStringView {
            name: self.name@,
            params: views(self.params@),
            content: self.content@,
        }
    }
}

/// What answers a function.
#[derive(Clone, Copy, Debug, PartialEq, Eq, Structural)]
pub enum OracleType {
    LLM,
}

/// The key of a value with the text that may stand for it.
#[derive(Debug, PartialEq, Eq)]
pub struct AliasedKey {
    pub key: String,
    pub alias: Expression,
}

/// Mathematical model of an [`AliasedKey`].
pub ghost struct AliasedKeyView {
    pub key: Seq<char>,
    pub alias: ExpressionView,
}

impl View for AliasedKey {
    type V = AliasedKeyView;

    open spec fn view(&self) -> AliasedKeyView {
        AliasedKeyView { key: self.key@, alias: self.alias@ }
    }
}

/// The text of an expression that is a string.
pub open spec fn text_of(e: Option<Expression>) -> Option<Seq<char>> {
    match e {
        Some(Expression::String(s)) => Some(s@),
        _ => None,
    }
}

/// The texts that may stand for a key that has an alias, a description, or
/// both: the alias, and the alias with the description after a colon; or the
/// description alone.
pub open spec fn aliased_keys(
    alias: Option<Seq<char>>,
    description: Option<Seq<char>>,
    key: Seq<char>,
) -> Seq<AliasedKeyView> {
    match (alias, description) {
        (Some(a), Some(d)) => seq![
            AliasedKeyView { key, alias: ExpressionView::String(a) },
            AliasedKeyView { key, alias: ExpressionView::String(a + ": "@ + d) },
        ],
        (Some(a), None) => seq![AliasedKeyView { key, alias: ExpressionView::String(a) }],
        (None, Some(d)) => seq![AliasedKeyView { key, alias: ExpressionView::String(d) }],
        (None, None) => Seq::empty(),
    }
}

/// The aliased keys of a field under the overrides of an implementation of a
/// function: those that the `alias` and the `description` of the overrides
/// give, where these are strings; none without overrides.
pub open spec fn processed_field(
    overrides: Seq<((Seq<char>, Seq<char>), IndexMap<String, Expression>)>,
    field_name: Seq<char>,
    function_name: Seq<char>,
    impl_name: Seq<char>,
) -> Seq<AliasedKeyView> {
    match override_lookup(overrides, function_name, impl_name) {
        Some(inner) => aliased_keys(
            text_of(lookup(map_entries(inner), "alias"@)),
            text_of(lookup(map_entries(inner), "description"@)),
            field_name,
        ),
        None => Seq::empty(),
    }
}

fn string_under<'a>(m: &'a IndexMap<String, Expression>, key: &str) -> (r: Option<&'a String>)
    ensures
        match r {
            Some(s) => text_of(lookup(map_entries(*m), key@)) == Some(s@),
            None => text_of(lookup(map_entries(*m), key@)) is None,
        },
{
    match map_get(m, key) {
        Some(Expression::String(s)) => Some(s),
        _ => None,
    }
}

fn aliased(key: &str, alias: String) -> (r: AliasedKey)
    ensures
        r@ == (AliasedKeyView { key: key@, alias: ExpressionView::String(alias@) }),
{
    AliasedKey { key: String::from_str(key), alias: Expression::String(alias) }
}

/// The aliased keys of a field under the overrides of an implementation of a
/// function.
pub fn process_field(
    overrides: &IndexMap<(String, String), IndexMap<String, Expression>>,
    field_name: &str,
    function_name: &str,
    impl_name: &str,
) -> (r: Vec<AliasedKey>)
    ensures
        views(r@) == processed_field(
            override_entries(*overrides),
            field_name@,
            function_name@,
            impl_name@,
        ),
{
    let mut out: Vec<AliasedKey> = Vec::new();
    match overrides_get(overrides, function_name, impl_name) {
        Some(inner) => {
            let alias = string_under(inner, "alias");
            let description = string_under(inner, "description");
            match (alias, description) {
                (Some(a), Some(d)) => {
                    let first = aliased(field_name, a.clone());
                    let mut both = a.clone();
                    both.append(": ");
                    both.append(d.as_str());
                    let second = aliased(field_name, both);
                    let ghost listed = seq![first@, second@];
                    out.push(first);
                    out.push(second);
                    assert(views(out@) =~= listed);
                },
                (Some(a), None) => {
                    let only = aliased(field_name, a.clone());
                    let ghost listed = seq![only@];
                    out.push(only);
                    assert(views(out@) =~= listed);
                },
                (None, Some(d)) => {
                    let only = aliased(field_name, d.clone());
                    let ghost listed = seq![only@];
                    out.push(only);
                    assert(views(out@) =~= listed);
                },
                (None, None) => {
                    assert(views(out@) =~= Seq::empty());
                },
            }
        },
        None => {
            assert(views(out@) =~= Seq::empty());
        },
    }
    out
}

/// The aliases that override the keys of one type.
#[derive(Debug, PartialEq, Eq)]
pub struct AliasOverride {
    pub name: String,
    pub aliased_keys: Vec<AliasedKey>,
}

/// One message of a chat prompt.
#[derive(Clone, Debug, PartialEq, Eq)]
pub struct ChatMessage {
    pub idx: u32,
    pub role: String,
    pub content: String,
}

/// Mathematical model of a [`ChatMessage`].
pub ghost struct ChatMessageView {
    pub idx: u32,
    pub role: Seq<char>,
    pub content: Seq<char>,
}

impl View for ChatMessage {
    type V = ChatMessageView;

    open spec fn view(&self) -> ChatMessageView {
        ChatMessageView { idx: self.idx, role: self.role@, content: self.content@ }
    }
}

/// A prompt: plain text or chat messages, with the keys of the inputs to
/// replace in it.
#[derive(Clone, Debug, PartialEq, Eq)]
pub enum Prompt {
    String(String, Vec<(String, String)>),
    Chat(Vec<ChatMessage>, Vec<(String, String)>),
}

/// The models of a list of pairs of strings, in order.
pub open spec fn pair_views(s: Seq<(String, String)>) -> Seq<(Seq<char>, Seq<char>)> {
    Seq::new(s.len(), |i: int| (s[i].0@, s[i].1@))
}

/// Mathematical model of a [`Prompt`].
pub ghost enum PromptView {
    String(Seq<char>, Seq<(Seq<char>, Seq<char>)>),
    Chat(Seq<ChatMessageView>, Seq<(Seq<char>, Seq<char>)>),
}

impl View for Prompt {
    type V = PromptView;

    open spec fn view(&self) -> PromptView {
        match self {
            Prompt::String(s, r) => PromptView::String(s@, pair_views(r@)),
            Prompt::Chat(m, r) => PromptView::Chat(views(m@), pair_views(r@)),
        }
    }
}

/// One implementation of a function.
#[derive(Debug, PartialEq)]
pub struct Implementation {
    pub oracle: OracleType,
    pub name: String,
    pub function_name: String,
    pub prompt: Prompt,
    pub input_replacers: IndexMap<String, String>,
    pub output_replacers: IndexMap<String, String>,
    pub client: String,
    pub overrides: Vec<AliasOverride>,
}

/// The arguments of a function: one unnamed, or a list of named ones.
#[derive(Debug, PartialEq, Eq)]
pub enum FunctionArgs {
    UnnamedArg(FieldType),
    NamedArgList(Vec<(String, FieldType)>),
}

/// The client of a function: a declared one by name, or a provider with a
/// model.
#[derive(Clone, Debug, PartialEq, Eq)]
pub enum ClientSpec {
    Named(String),
    /// Stands for `<provider>/<model>`.
    Shorthand(String, String),
}

/// Mathematical model of a [`ClientSpec`].
pub ghost enum ClientSpecView {
    Named(Seq<char>),
    Shorthand(Seq<char>, Seq<char>),
}

impl View for ClientSpec {
    type V = ClientSpecView;

    open spec fn view(&self) -> ClientSpecView {
        match self {
            ClientSpec::Named(n) => ClientSpecView::Named(n@),
            ClientSpec::Shorthand(p, m) => ClientSpecView::Shorthand(p@, m@),
        }
    }
}

/// The text of a client spec: the name, or provider and model around a slash.
pub open spec fn client_spec_text(c: ClientSpecView) -> Seq<char> {
    match c {
        ClientSpecView::Named(n) => n,
        ClientSpecView::Shorthand(p, m) => p + seq!['/'] + m,
    }
}

/// The position of the first occurrence of a character in a text, or the
/// length of the text if there is none.
pub open spec fn position_of(text: Seq<char>, c: char) -> int
    decreases text.len(),
{
    if text.len() == 0 {
        0
    } else if text[0] == c {
        0
    } else {
        1 + position_of(text.drop_first(), c)
    }
}

/// The client spec that a text stands for: with a slash in it, the provider
/// before the first slash and the model after it; without one, a name.
pub open spec fn client_spec_of(text: Seq<char>) -> ClientSpecView {
    let i = position_of(text, '/');
    if 0 <= i < text.len() {
        ClientSpecView::Shorthand(text.take(i), text.skip(i + 1))
    } else {
        ClientSpecView::Named(text)
    }
}

impl ClientSpec {
    /// The text of the client spec.
    pub fn as_str(&self) -> (r: String)
        ensures
            r@ == client_spec_text(self@),
    {
        match self {
            ClientSpec::Named(n) => n.clone(),
            ClientSpec::Shorthand(provider, model) => {
                let mut s = provider.clone();
                proof {
                    reveal_strlit("/");
                }
                s.append("/");
                s.append(model.as_str());
                assert(s@ =~= provider@ + seq!['/'] + model@);
                s
            },
        }
    }

    /// Reads a client spec from its text.
    pub fn new_from_id(arg: String) -> (r: ClientSpec)
        ensures
            r@ == client_spec_of(arg@),
    {
        let chars = chars_of(arg.as_str());
        let mut i: usize = 0;
        assert(arg@.skip(0) =~= arg@);
        while i < chars.len()
            invariant
                i <= chars.len(),
                chars@ == arg@,
                position_of(arg@, '/') == i + position_of(arg@.skip(i as int), '/'),
            decreases chars.len() - i,
        {
            assert(arg@.skip(i as int)[0] == arg@[i as int]);
            if chars[i] == '/' {
                let provider = arg.as_str().substring_char(0, i);
                let model = arg.as_str().substring_char(i + 1, chars.len());
                assert(arg@.subrange(0, i as int) =~= arg@.take(i as int));
                assert(arg@.subrange(i + 1, chars.len() as int) =~= arg@.skip(i + 1));
                return ClientSpec::Shorthand(
                    String::from_str(provider),
                    String::from_str(model),
                );
            }
            assert(arg@.skip(i as int).drop_first() =~= arg@.skip(i + 1));
            i += 1;
        }
        assert(arg@.skip(i as int).len() == 0);
        ClientSpec::Named(arg)
    }

    /// The environment variables that the client spec needs: none.
    pub fn required_env_vars(&self) -> (r: HashSet<String>)
        ensures
            r@ == Set::<String>::empty(),
    {
        HashSet::new()
    }
}

/// One configuration of a function: its prompt and its client.
#[derive(Debug, PartialEq)]
pub struct FunctionConfig {
    pub name: String,
    pub prompt_template: String,
    pub prompt_span: Span,
    pub client: ClientSpec,
}

/// Mathematical model of a [`FunctionConfig`].
pub ghost struct FunctionConfigView {
    pub name: Seq<char>,
    pub prompt_template: Seq<char>,
    pub prompt_span: Span,
    pub client: ClientSpecView,
}

impl View for FunctionConfig {
    type V = FunctionConfigView;

    open spec fn view(&self) -> FunctionConfigView {
        FunctionConfigView {
            name: self.name@,
            prompt_template: self.prompt_template@,
            prompt_span: self.prompt_span,
            client: self.client@,
        }
    }
}

/// The name under which a test refers to a function.
#[derive(Debug, PartialEq, Eq)]
pub struct TestCaseFunction(pub String);

impl View for TestCaseFunction {
    type V = Seq<char>;

    open spec fn view(&self) -> Seq<char> {
        self.0@
    }
}

impl TestCaseFunction {
    /// The name of the function.
    pub fn name(&self) -> (r: &str)
        ensures
            r@ == self@,
    {
        self.0.as_str()
    }
}

/// A test case: the functions it applies to and its arguments by name.
#[derive(Debug, PartialEq)]
pub struct TestCase {
    pub name: String,
    pub functions: Vec<Node<TestCaseFunction>>,
    pub args: IndexMap<String, Expression>,
}

/// Mathematical model of a [`TestCase`].
pub ghost struct TestCaseView {
    pub name: Seq<char>,
    pub functions: Seq<NodeView<Seq<char>>>,
    pub args: Seq<(Seq<char>, ExpressionView)>,
}

impl View for TestCase {
    type V = TestCaseView;

    open spec fn view(&self) -> TestCaseView {
        TestCaseView {
            name: self.name@,
            functions: views(self.functions@),
            args: entry_views(map_entries(self.args)),
        }
    }
}

/// A function: its signature, its configurations and its tests.
#[derive(Debug, PartialEq)]
pub struct Function {
    pub name: String,
    pub inputs: Vec<(String, FieldType)>,
    pub output: FieldType,
    pub tests: Vec<Node<TestCase>>,
    pub configs: Vec<FunctionConfig>,
    pub default_config: String,
}

/// Mathematical model of a [`Function`].
pub ghost struct FunctionView {
    pub name: Seq<char>,
    pub inputs: Seq<(Seq<char>, FieldTypeView)>,
    pub output: FieldTypeView,
    pub tests: Seq<NodeView<TestCaseView>>,
    pub configs: Seq<FunctionConfigView>,
    pub default_config: Seq<char>,
}

impl View for Function {
    type V = FunctionView;

    open spec fn view(&self) -> FunctionView {
        FunctionView {
            name: self.name@,
            inputs: named_type_views(self.inputs@),
            output: self.output@,
            tests: views(self.tests@),
            configs: views(self.configs@),
            default_config: self.default_config@,
        }
    }
}

impl Function {
    /// The name of the function.
    pub fn name(&self) -> (r: &str)
        ensures
            r@ == self.name@,
    {
        self.name.as_str()
    }

    /// The return type.
    pub fn output(&self) -> (r: &FieldType)
        ensures
            r == &self.output,
    {
        &self.output
    }

    /// The parameters, in declaration order.
    pub fn inputs(&self) -> (r: &Vec<(String, FieldType)>)
        ensures
            r == &self.inputs,
    {
        &self.inputs
    }

    /// The tests that apply to the function.
    pub fn tests(&self) -> (r: &Vec<Node<TestCase>>)
        ensures
            r == &self.tests,
    {
        &self.tests
    }

    /// The configurations of the function. There always are some.
    pub fn configs(&self) -> (r: Option<&Vec<FunctionConfig>>)
        ensures
            r == Some(&self.configs),
    {
        Some(&self.configs)
    }
}

/// A client: its provider, its retry policy if any, and its options.
#[derive(Debug, PartialEq)]
pub struct Client {
    pub name: String,
    pub provider: String,
    pub retry_policy_id: Option<String>,
    pub options: Vec<(String, Expression)>,
}

/// Mathematical model of a [`Client`].
pub ghost struct ClientView {
    pub name: Seq<char>,
    pub provider: Seq<char>,
    pub retry_policy_id: Option<Seq<char>>,
    pub options: Seq<(Seq<char>, ExpressionView)>,
}

impl View for Client {
    type V = ClientView;

    open spec fn view(&self) -> ClientView {
        ClientView {
            name: self.name@,
            provider: self.provider@,
            retry_policy_id: optional_text(self.retry_policy_id),
            options: option_views(self.options@),
        }
    }
}

/// The name of a retry policy.
#[derive(Debug, PartialEq, Eq)]
pub struct RetryPolicyId(pub String);

/// A retry policy.
#[derive(Debug, PartialEq)]
pub struct RetryPolicy {
    pub name: RetryPolicyId,
    pub max_retries: u32,
    pub strategy: RetryPolicyStrategy,
    /// The options of the policy; absent options and empty options are alike.
    pub options: Vec<(String, Expression)>,
}

/// Mathematical model of a [`RetryPolicy`].
pub ghost struct RetryPolicyView {
    pub name: Seq<char>,
    pub max_retries: u32,
    pub strategy: RetryPolicyStrategy,
    pub options: Seq<(Seq<char>, ExpressionView)>,
}

impl View for RetryPolicy {
    type V = RetryPolicyView;

    open spec fn view(&self) -> RetryPolicyView {
        RetryPolicyView {
            name: self.name.0@,
            max_retries: self.max_retries,
            strategy: self.strategy,
            options: option_views(self.options@),
        }
    }
}

} // verus!
