//! The registry of the variables, classes and functions that expressions can
//! refer to.
use vstd::prelude::*;
use crate::collections::lookup;
use crate::collections::position_of_key;
use crate::collections::with_entry;
use crate::evaluate_type::types::Type;
use crate::evaluate_type::types::TypeView;
use crate::evaluate_type::types::lemma_union_view;
use crate::evaluate_type::types::type_views;
use crate::evaluate_type::JinjaContext;
use crate::evaluate_type::suggest::nearest;
use crate::evaluate_type::suggest::sort_by_match;
use crate::evaluate_type::suggest::MAX_SUGGESTIONS;
use crate::expression::extend_strings;
use crate::seqs::dedup;
use crate::seqs::lemma_dedup;
use crate::seqs::views;
use crate::sorting::lemma_stable_sort_members;
use crate::sorting::sort_by_name;
use crate::sorting::stable_sort;
use crate::text::distinct;
use crate::text::eq_str;
use crate::text::string_views;

verus! {

/// The models of a list of named types, in order.
pub open spec fn typed_names(s: Seq<(String, Type)>) -> Seq<(Seq<char>, TypeView)> {
    Seq::new(s.len(), |i: int| (s[i].0@, s[i].1@))
}

/// What a function returns and takes.
#[derive(Debug, PartialEq, Eq)]
pub struct FunctionSignature {
    pub returns: Type,
    /// The parameters in declaration order.
    pub params: Vec<(String, Type)>,
}

/// Mathematical model of a [`FunctionSignature`].
pub ghost struct FunctionSignatureView {
    pub returns: TypeView,
    pub params: Seq<(Seq<char>, TypeView)>,
}

impl View for FunctionSignature {
    type V = FunctionSignatureView;

    open spec fn view(&self) -> FunctionSignatureView {
        FunctionSignatureView { returns: self.returns@, params: typed_names(self.params@) }
    }
}

/// The models of a list of named signatures, in order.
pub open spec fn signature_views(s: Seq<(String, FunctionSignature)>) -> Seq<
    (Seq<char>, FunctionSignatureView),
> {
    Seq::new(s.len(), |i: int| (s[i].0@, s[i].1@))
}

/// The models of a list of named classes, in order.
pub open spec fn class_views(s: Seq<(String, Vec<(String, Type)>)>) -> Seq<
    (Seq<char>, Seq<(Seq<char>, TypeView)>),
> {
    Seq::new(s.len(), |i: int| (s[i].0@, typed_names(s[i].1@)))
}

/// The known variables, classes and functions. Of several entries of one name
/// the first counts; adding a name that is known replaces what it stood for.
#[derive(Debug, PartialEq, Eq)]
pub struct PredefinedTypes {
    pub functions: Vec<(String, FunctionSignature)>,
    pub classes: Vec<(String, Vec<(String, Type)>)>,
    pub variables: Vec<(String, Type)>,
    /// The names that the context of the expression binds. They are offered
    /// for every name that is not known.
    pub context_names: Vec<String>,
}

/// Mathematical model of [`PredefinedTypes`].
pub ghost struct PredefinedTypesView {
    pub functions: Seq<(Seq<char>, FunctionSignatureView)>,
    pub classes: Seq<(Seq<char>, Seq<(Seq<char>, TypeView)>)>,
    pub variables: Seq<(Seq<char>, TypeView)>,
    pub context_names: Seq<Seq<char>>,
}

impl View for PredefinedTypes {
    type V = PredefinedTypesView;

    open spec fn view(&self) -> PredefinedTypesView {
        PredefinedTypesView {
            functions: signature_views(self.functions@),
            classes: class_views(self.classes@),
            variables: typed_names(self.variables@),
            context_names: string_views(self.context_names@),
        }
    }
}

/// The type that a string or nothing has.
pub open spec fn optional_string() -> TypeView {
    TypeView::Union(seq![TypeView::NoneType, TypeView::String])
}

/// The type that a boolean or nothing has.
pub open spec fn optional_bool() -> TypeView {
    TypeView::Union(seq![TypeView::NoneType, TypeView::Bool])
}

/// What is known before anything is added.
///
/// In a prompt: the variable `ctx` of class `baml::Context`, whose
/// `output_format` is the function `baml::OutputFormat` and whose `client` is
/// of class `baml::Client`; and the variable `_` of class `baml::BuiltIn`,
/// whose `chat` and `role` are the function `baml::Chat`. These two variables
/// are the names that the context binds. Elsewhere nothing is known.
pub open spec fn builtin(context: JinjaContext) -> PredefinedTypesView {
    match context {
        JinjaContext::Parsing => PredefinedTypesView {
            functions: Seq::empty(),
            classes: Seq::empty(),
            variables: Seq::empty(),
            context_names: Seq::empty(),
        },
        JinjaContext::Prompt => PredefinedTypesView {
            functions: seq![
                (
                    "baml::Chat"@,
                    FunctionSignatureView {
                        returns: TypeView::String,
                        params: seq![("role"@, TypeView::String)],
                    },
                ),
                (
                    "baml::OutputFormat"@,
                    FunctionSignatureView {
                        returns: TypeView::String,
                        params: seq![
                            ("prefix"@, optional_string()),
                            ("or_splitter"@, optional_string()),
                            ("enum_value_prefix"@, optional_string()),
                            ("always_hoist_enums"@, optional_bool()),
                            ("hoisted_class_prefix"@, optional_string()),
                        ],
                    },
                ),
            ],
            classes: seq![
                (
                    "baml::Client"@,
                    seq![("name"@, TypeView::String), ("provider"@, TypeView::String)],
                ),
                (
                    "baml::Context"@,
                    seq![
                        ("output_format"@, TypeView::FunctionRef("baml::OutputFormat"@)),
                        ("client"@, TypeView::ClassRef("baml::Client"@)),
                    ],
                ),
                (
                    "baml::BuiltIn"@,
                    seq![
                        ("chat"@, TypeView::FunctionRef("baml::Chat"@)),
                        ("role"@, TypeView::FunctionRef("baml::Chat"@)),
                    ],
                ),
            ],
            variables: seq![
                ("ctx"@, TypeView::ClassRef("baml::Context"@)),
                ("_"@, TypeView::ClassRef("baml::BuiltIn"@)),
            ],
            context_names: seq!["ctx"@, "_"@],
        },
    }
}

/// The names to suggest for a name that is not known: the names that the
/// context binds, whatever the name, and the three known variables nearest to
/// the name; each once, in lexicographic order.
pub open spec fn variable_suggestions(types: PredefinedTypesView, name: Seq<char>) -> Seq<
    Seq<char>,
> {
    stable_sort::<String>(
        dedup(types.context_names + nearest(keys(types.variables), name, MAX_SUGGESTIONS as int)),
    )
}

/// The names that the context binds are suggested for every name.
pub proof fn lemma_context_names_offered(
    types: PredefinedTypesView,
    name: Seq<char>,
    offered: Seq<char>,
)
    requires
        types.context_names.contains(offered),
    ensures
        variable_suggestions(types, name).contains(offered),
{
    let near = nearest(keys(types.variables), name, MAX_SUGGESTIONS as int);
    let all = types.context_names + near;
    let i = choose|i: int| 0 <= i < types.context_names.len() && types.context_names[i] == offered;
    assert(all[i] == offered);
    assert(all.contains(offered));
    lemma_dedup(all);
    assert(dedup(all).contains(offered));
    lemma_stable_sort_members::<String>(dedup(all));
}

/// In a prompt, `ctx` is suggested for every name that is not known.
pub proof fn lemma_prompt_offers_context(name: Seq<char>)
    ensures
        variable_suggestions(builtin(JinjaContext::Prompt), name).contains("ctx"@),
        variable_suggestions(builtin(JinjaContext::Prompt), name).contains("_"@),
{
    let types = builtin(JinjaContext::Prompt);
    assert(types.context_names[0] == "ctx"@);
    assert(types.context_names[1] == "_"@);
    lemma_context_names_offered(types, name, "ctx"@);
    lemma_context_names_offered(types, name, "_"@);
}

/// What a name stands for: the variable of that name, else the function of
/// that name, else nothing.
pub open spec fn resolved(types: PredefinedTypesView, name: Seq<char>) -> Option<TypeView> {
    match lookup(types.variables, name) {
        Some(t) => Some(t),
        None => match lookup(types.functions, name) {
            Some(_) => Some(TypeView::FunctionRef(name)),
            None => None,
        },
    }
}

/// The first components of a sequence of pairs.
pub open spec fn keys<V>(entries: Seq<(Seq<char>, V)>) -> Seq<Seq<char>> {
    Seq::new(entries.len(), |i: int| entries[i].0)
}

/// The position of the first entry of the given name in a list, if any.
pub fn find_name<V>(entries: &Vec<(String, V)>, name: &str) -> (r: Option<usize>)
    ensures
        match r {
            Some(p) => p < entries@.len() && entries@[p as int].0@ == name@ && forall|j: int|
                0 <= j < p ==> (#[trigger] entries@[j]).0@ != name@,
            None => forall|j: int| 0 <= j < entries@.len() ==> (#[trigger] entries@[j]).0@ != name@,
        },
{
    let mut i: usize = 0;
    while i < entries.len()
        invariant
            i <= entries.len(),
            forall|j: int| 0 <= j < i ==> (#[trigger] entries@[j]).0@ != name@,
        decreases entries.len() - i,
    {
        if eq_str(&entries[i].0, name) {
            return Some(i);
        }
        i += 1;
    }
    None
}

/// The position of a key is that of the first entry that has it.
pub proof fn lemma_position_first<V>(entries: Seq<(Seq<char>, V)>, key: Seq<char>, p: int)
    requires
        0 <= p <= entries.len(),
        forall|j: int| 0 <= j < p ==> (#[trigger] entries[j]).0 != key,
        p < entries.len() ==> entries[p].0 == key,
    ensures
        position_of_key(entries, key) == p,
    decreases entries.len(),
{
    if entries.len() > 0 {
        if p > 0 {
            assert(entries[0].0 != key);
            let rest = entries.drop_first();
            assert forall|j: int| 0 <= j < p - 1 implies (#[trigger] rest[j]).0 != key by {
                assert(rest[j] == entries[j + 1]);
            }
            if p < entries.len() {
                assert(rest[p - 1] == entries[p]);
            }
            lemma_position_first(rest, key, p - 1);
        }
    }
}

fn maybe_string() -> (r: Type)
    ensures
        r@ == optional_string(),
{
    let mut members: Vec<Type> = Vec::new();
    members.push(Type::NoneType);
    members.push(Type::String);
    proof {
        lemma_union_view(members);
        assert(type_views(members@) =~= seq![TypeView::NoneType, TypeView::String]);
    }
    Type::Union(members)
}

fn maybe_bool() -> (r: Type)
    ensures
        r@ == optional_bool(),
{
    let mut members: Vec<Type> = Vec::new();
    members.push(Type::NoneType);
    members.push(Type::Bool);
    proof {
        lemma_union_view(members);
        assert(type_views(members@) =~= seq![TypeView::NoneType, TypeView::Bool]);
    }
    Type::Union(members)
}

fn named(name: &str, t: Type) -> (r: (String, Type))
    ensures
        r.0@ == name@,
        r.1 == t,
{
    (String::from_str(name), t)
}

impl PredefinedTypes {
    /// The registry of a context before anything is added.
    pub fn default(context: JinjaContext) -> (r: PredefinedTypes)
        ensures
            r@ == builtin(context),
    {
        match context {
            JinjaContext::Parsing => {
                let r = PredefinedTypes {
                    functions: Vec::new(),
                    classes: Vec::new(),
                    variables: Vec::new(),
                    context_names: Vec::new(),
                };
                assert(r@.context_names =~= Seq::empty());
                assert(r@.functions =~= Seq::empty());
                assert(r@.classes =~= Seq::empty());
                assert(r@.variables =~= Seq::empty());
                r
            },
            JinjaContext::Prompt => {
                let mut chat_params: Vec<(String, Type)> = Vec::new();
                chat_params.push(named("role", Type::String));
                assert(typed_names(chat_params@) =~= seq![("role"@, TypeView::String)]);
                let mut format_params: Vec<(String, Type)> = Vec::new();
                format_params.push(named("prefix", maybe_string()));
                format_params.push(named("or_splitter", maybe_string()));
                format_params.push(named("enum_value_prefix", maybe_string()));
                format_params.push(named("always_hoist_enums", maybe_bool()));
                format_params.push(named("hoisted_class_prefix", maybe_string()));
                assert(typed_names(format_params@) =~= seq![
                    ("prefix"@, optional_string()),
                    ("or_splitter"@, optional_string()),
                    ("enum_value_prefix"@, optional_string()),
                    ("always_hoist_enums"@, optional_bool()),
                    ("hoisted_class_prefix"@, optional_string()),
                ]);
                let mut functions: Vec<(String, FunctionSignature)> = Vec::new();
                functions.push(
                    (
                        String::from_str("baml::Chat"),
                        FunctionSignature { returns: Type::String, params: chat_params },
                    ),
                );
                functions.push(
                    (
                        String::from_str("baml::OutputFormat"),
                        FunctionSignature { returns: Type::String, params: format_params },
                    ),
                );
                let mut client_fields: Vec<(String, Type)> = Vec::new();
                client_fields.push(named("name", Type::String));
                client_fields.push(named("provider", Type::String));
                assert(typed_names(client_fields@) =~= seq![
                    ("name"@, TypeView::String),
                    ("provider"@, TypeView::String),
                ]);
                let mut context_fields: Vec<(String, Type)> = Vec::new();
                context_fields.push(
                    named("output_format", Type::FunctionRef(String::from_str("baml::OutputFormat"))),
                );
                context_fields.push(
                    named("client", Type::ClassRef(String::from_str("baml::Client"))),
                );
                assert(typed_names(context_fields@) =~= seq![
                    ("output_format"@, TypeView::FunctionRef("baml::OutputFormat"@)),
                    ("client"@, TypeView::ClassRef("baml::Client"@)),
                ]);
                let mut builtin_fields: Vec<(String, Type)> = Vec::new();
                builtin_fields.push(
                    named("chat", Type::FunctionRef(String::from_str("baml::Chat"))),
                );
                builtin_fields.push(
                    named("role", Type::FunctionRef(String::from_str("baml::Chat"))),
                );
                assert(typed_names(builtin_fields@) =~= seq![
                    ("chat"@, TypeView::FunctionRef("baml::Chat"@)),
                    ("role"@, TypeView::FunctionRef("baml::Chat"@)),
                ]);
                let mut classes: Vec<(String, Vec<(String, Type)>)> = Vec::new();
                classes.push((String::from_str("baml::Client"), client_fields));
                classes.push((String::from_str("baml::Context"), context_fields));
                classes.push((String::from_str("baml::BuiltIn"), builtin_fields));
                let mut variables: Vec<(String, Type)> = Vec::new();
                variables.push(named("ctx", Type::ClassRef(String::from_str("baml::Context"))));
                variables.push(named("_", Type::ClassRef(String::from_str("baml::BuiltIn"))));
                let mut context_names: Vec<String> = Vec::new();
                context_names.push(String::from_str("ctx"));
                context_names.push(String::from_str("_"));
                let r = PredefinedTypes { functions, classes, variables, context_names };
                assert(r@.context_names =~= builtin(context).context_names);
                assert(r@.functions =~= builtin(context).functions);
                assert(r@.classes =~= builtin(context).classes);
                assert(r@.variables =~= builtin(context).variables);
                r
            },
        }
    }

    /// Makes a function known, in place of any function of the same name.
    pub fn add_function(&mut self, name: &str, ret: Type, args: Vec<(String, Type)>)
        ensures
            final(self)@ == (PredefinedTypesView {
                functions: with_entry(
                    old(self)@.functions,
                    name@,
                    FunctionSignatureView { returns: ret@, params: typed_names(args@) },
                ),
                ..old(self)@
            }),
    {
        let found = find_name(&self.functions, name);
        let ghost before = self.functions@;
        let signature = FunctionSignature { returns: ret, params: args };
        match found {
            Some(p) => {
                proof {
                    lemma_position_first(signature_views(before), name@, p as int);
                }
                self.functions.set(p, (String::from_str(name), signature));
                assert(signature_views(self.functions@) =~= signature_views(before).update(
                    p as int,
                    (name@, signature@),
                ));
            },
            None => {
                proof {
                    lemma_position_first(signature_views(before), name@, before.len() as int);
                }
                self.functions.push((String::from_str(name), signature));
                assert(signature_views(self.functions@) =~= signature_views(before).push(
                    (name@, signature@),
                ));
            },
        }
    }

    /// Makes a class known, in place of any class of the same name.
    pub fn add_class(&mut self, name: &str, fields: Vec<(String, Type)>)
        ensures
            final(self)@ == (PredefinedTypesView {
                classes: with_entry(old(self)@.classes, name@, typed_names(fields@)),
                ..old(self)@
            }),
    {
        let found = find_name(&self.classes, name);
        let ghost before = self.classes@;
        let ghost listed = typed_names(fields@);
        match found {
            Some(p) => {
                proof {
                    lemma_position_first(class_views(before), name@, p as int);
                }
                self.classes.set(p, (String::from_str(name), fields));
                assert(class_views(self.classes@) =~= class_views(before).update(
                    p as int,
                    (name@, listed),
                ));
            },
            None => {
                proof {
                    lemma_position_first(class_views(before), name@, before.len() as int);
                }
                self.classes.push((String::from_str(name), fields));
                assert(class_views(self.classes@) =~= class_views(before).push((name@, listed)));
            },
        }
    }

    /// Makes a variable known, in place of any variable of the same name.
    pub fn add_variable(&mut self, name: &str, t: Type)
        ensures
            final(self)@ == (PredefinedTypesView {
                variables: with_entry(old(self)@.variables, name@, t@),
                ..old(self)@
            }),
    {
        let found = find_name(&self.variables, name);
        let ghost before = self.variables@;
        let ghost model = t@;
        match found {
            Some(p) => {
                proof {
                    lemma_position_first(typed_names(before), name@, p as int);
                }
                self.variables.set(p, (String::from_str(name), t));
                assert(typed_names(self.variables@) =~= typed_names(before).update(
                    p as int,
                    (name@, model),
                ));
            },
            None => {
                proof {
                    lemma_position_first(typed_names(before), name@, before.len() as int);
                }
                self.variables.push((String::from_str(name), t));
                assert(typed_names(self.variables@) =~= typed_names(before).push((name@, model)));
            },
        }
    }

    /// What a name stands for: a variable, else a function, else nothing.
    pub fn resolve(&self, name: &str) -> (r: Option<Type>)
        ensures
            match r {
                Some(t) => resolved(self@, name@) == Some(t@),
                None => resolved(self@, name@) is None,
            },
    {
        match find_name(&self.variables, name) {
            Some(p) => {
                proof {
                    lemma_position_first(typed_names(self.variables@), name@, p as int);
                }
                Some(self.variables[p].1.duplicate())
            },
            None => {
                proof {
                    lemma_position_first(
                        typed_names(self.variables@),
                        name@,
                        self.variables@.len() as int,
                    );
                }
                match find_name(&self.functions, name) {
                    Some(p) => {
                        proof {
                            lemma_position_first(signature_views(self.functions@), name@, p as int);
                        }
                        Some(Type::FunctionRef(String::from_str(name)))
                    },
                    None => {
                        proof {
                            lemma_position_first(
                                signature_views(self.functions@),
                                name@,
                                self.functions@.len() as int,
                            );
                        }
                        None
                    },
                }
            },
        }
    }

    /// The names to suggest for a name that is not known: the names that the
    /// context binds and the three known variables nearest to the name, each
    /// once, in lexicographic order.
    pub fn suggest_variables(&self, name: &str) -> (r: Vec<String>)
        ensures
            string_views(r@) == variable_suggestions(self@, name@),
    {
        let known = self.variable_names();
        let near = sort_by_match(name, &known, MAX_SUGGESTIONS);
        let mut offered: Vec<String> = Vec::new();
        assert(string_views(offered@) =~= Seq::empty());
        extend_strings(&mut offered, &self.context_names);
        extend_strings(&mut offered, &near);
        assert(string_views(offered@) =~= self@.context_names + string_views(near@));
        let each = distinct(&offered);
        assert(views(each@) =~= string_views(each@));
        let sorted = sort_by_name(each);
        assert(views(sorted@) =~= string_views(sorted@));
        sorted
    }

    /// The names of the known variables, in the order in which they became
    /// known.
    pub fn variable_names(&self) -> (r: Vec<String>)
        ensures
            string_views(r@) == keys(self@.variables),
    {
        let mut out: Vec<String> = Vec::new();
        let mut i: usize = 0;
        while i < self.variables.len()
            invariant
                i <= self.variables.len(),
                string_views(out@) =~= keys(self@.variables).take(i as int),
            decreases self.variables.len() - i,
        {
            let ghost before = out@;
            out.push(self.variables[i].0.clone());
            assert(string_views(out@) =~= string_views(before).push(self.variables@[i as int].0@));
            i += 1;
        }
        assert(keys(self@.variables).take(self.variables.len() as int) =~= keys(self@.variables));
        out
    }

    /// The fields of a class, if the class is known.
    pub fn class_fields(&self, class: &str) -> (r: Option<&Vec<(String, Type)>>)
        ensures
            match r {
                Some(fields) => lookup(self@.classes, class@) == Some(typed_names(fields@)),
                None => lookup(self@.classes, class@) is None,
            },
    {
        match find_name(&self.classes, class) {
            Some(p) => {
                proof {
                    lemma_position_first(class_views(self.classes@), class@, p as int);
                }
                Some(&self.classes[p].1)
            },
            None => {
                proof {
                    lemma_position_first(
                        class_views(self.classes@),
                        class@,
                        self.classes@.len() as int,
                    );
                }
                None
            },
        }
    }

    /// The signature of a function, if the function is known.
    pub fn signature(&self, function: &str) -> (r: Option<&FunctionSignature>)
        ensures
            match r {
                Some(s) => lookup(self@.functions, function@) == Some(s@),
                None => lookup(self@.functions, function@) is None,
            },
    {
        match find_name(&self.functions, function) {
            Some(p) => {
                proof {
                    lemma_position_first(signature_views(self.functions@), function@, p as int);
                }
                Some(&self.functions[p].1)
            },
            None => {
                proof {
                    lemma_position_first(
                        signature_views(self.functions@),
                        function@,
                        self.functions@.len() as int,
                    );
                }
                None
            },
        }
    }
}

} // verus!
