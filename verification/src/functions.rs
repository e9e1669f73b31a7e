//! Lowering of functions, of the tests that apply to them, and of prompts.
use vstd::prelude::*;
use crate::ast;
use crate::ast::ParserDatabase;
use crate::ast::Span;
use crate::collections::map_entries;
use crate::collections::map_insert;
use crate::collections::new_map;
use crate::collections::position_of_key;
use crate::collections::with_entry;
use crate::entities::lower_args;
use crate::entities::lowered_args;
use crate::expression::Expression;
use crate::expression::ExpressionView;
use crate::lowering::lower_type;
use crate::lowering::lowered_type;
use crate::lowering::ok_view;
use crate::lowering::LoweringError;
use crate::lowering::LoweringErrorKind;
use crate::metadata::lower_expression;
use crate::metadata::lowered_expression;
use crate::metadata::span_attributes;
use crate::metadata::span_only;
use crate::node::entry_views;
use crate::node::Node;
use crate::node::NodeView;
use crate::repr::pair_views;
use crate::repr::ChatMessage;
use crate::repr::ChatMessageView;
use crate::repr::ClientSpec;
use crate::repr::ClientSpecView;
use crate::repr::Function;
use crate::repr::FunctionConfig;
use crate::repr::FunctionConfigView;
use crate::repr::FunctionView;
use crate::repr::Prompt;
use crate::repr::PromptView;
use crate::repr::TestCase;
use crate::repr::TestCaseFunction;
use crate::repr::TestCaseView;
use crate::seqs::collect_results;
use crate::seqs::lemma_collect_prefix_error;
use crate::seqs::lemma_collect_step;
use crate::seqs::views;

verus! {

/// What a reference from a test to a function lowers to.
pub open spec fn lowered_test_function(f: (String, Span)) -> NodeView<Seq<char>> {
    NodeView { attributes: span_attributes(f.1), elem: f.0@ }
}

/// What the references from a test to its functions lower to.
pub open spec fn lowered_test_functions(fs: Seq<(String, Span)>) -> Seq<NodeView<Seq<char>>> {
    Seq::new(fs.len(), |i: int| lowered_test_function(fs[i]))
}

/// What the arguments of a test lower to: an ordered map that takes the
/// arguments one by one, so that a name written twice keeps its first place
/// and its last value. The first argument that fails to lower fails the whole.
pub open spec fn lowered_test_args(args: Seq<(String, ast::Expression)>) -> Result<
    Seq<(Seq<char>, ExpressionView)>,
    LoweringError,
>
    decreases args.len(),
{
    if args.len() == 0 {
        Ok(Seq::empty())
    } else {
        match lowered_test_args(args.drop_last()) {
            Err(e) => Err(e),
            Ok(entries) => match lowered_expression(args.last().1) {
                Err(e) => Err(e),
                Ok(v) => Ok(with_entry(entries, args.last().0@, v)),
            },
        }
    }
}

/// What a test lowers to.
pub open spec fn lowered_test_case(t: ast::TestDecl) -> Result<
    NodeView<TestCaseView>,
    LoweringError,
> {
    match lowered_test_args(t.args@) {
        Err(e) => Err(e),
        Ok(args) => Ok(
            NodeView {
                attributes: span_attributes(t.span),
                elem: TestCaseView {
                    name: t.name@,
                    functions: lowered_test_functions(t.functions@),
                    args,
                },
            },
        ),
    }
}

proof fn lemma_position_of_key_views(entries: Seq<(Seq<char>, Expression)>, key: Seq<char>)
    ensures
        position_of_key(entry_views(entries), key) == position_of_key(entries, key),
    decreases entries.len(),
{
    if entries.len() > 0 {
        assert(entry_views(entries).drop_first() =~= entry_views(entries.drop_first()));
        lemma_position_of_key_views(entries.drop_first(), key);
    }
}

proof fn lemma_position_bounds<V>(entries: Seq<(Seq<char>, V)>, key: Seq<char>)
    ensures
        0 <= position_of_key(entries, key) <= entries.len(),
    decreases entries.len(),
{
    if entries.len() > 0 {
        lemma_position_bounds(entries.drop_first(), key);
    }
}

proof fn lemma_with_entry_views(
    entries: Seq<(Seq<char>, Expression)>,
    key: Seq<char>,
    value: Expression,
)
    ensures
        entry_views(with_entry(entries, key, value)) == with_entry(
            entry_views(entries),
            key,
            value@,
        ),
{
    lemma_position_of_key_views(entries, key);
    lemma_position_bounds(entries, key);
    assert(entry_views(with_entry(entries, key, value)) =~= with_entry(
        entry_views(entries),
        key,
        value@,
    ));
}

proof fn lemma_test_args_prefix_error(args: Seq<(String, ast::Expression)>, n: int)
    requires
        0 <= n <= args.len(),
        lowered_test_args(args.take(n)) is Err,
    ensures
        lowered_test_args(args) == lowered_test_args(args.take(n)),
    decreases args.len() - n,
{
    if n < args.len() {
        assert(args.take(n + 1).drop_last() =~= args.take(n));
        lemma_test_args_prefix_error(args, n + 1);
    } else {
        assert(args.take(n) =~= args);
    }
}

/// Lowers a test.
pub fn lower_test_case(t: &ast::TestDecl) -> (r: Result<Node<TestCase>, LoweringError>)
    ensures
        ok_view(r) == lowered_test_case(*t),
{
    let mut functions: Vec<Node<TestCaseFunction>> = Vec::new();
    let mut i: usize = 0;
    while i < t.functions.len()
        invariant
            i <= t.functions.len(),
            views(functions@) =~= lowered_test_functions(t.functions@).take(i as int),
        decreases t.functions.len() - i,
    {
        let ghost before = functions@;
        let node = Node {
            attributes: span_only(t.functions[i].1),
            elem: TestCaseFunction(t.functions[i].0.clone()),
        };
        assert(node@ == lowered_test_function(t.functions@[i as int]));
        functions.push(node);
        assert(views(functions@) =~= views(before).push(node@));
        i += 1;
    }
    assert(lowered_test_functions(t.functions@).take(i as int) =~= lowered_test_functions(
        t.functions@,
    ));
    let mut args = new_map();
    let mut k: usize = 0;
    assert(entry_views(map_entries(args)) =~= Seq::empty());
    assert(t.args@.take(0) =~= Seq::empty());
    while k < t.args.len()
        invariant
            k <= t.args.len(),
            lowered_test_args(t.args@.take(k as int)) == Ok::<
                Seq<(Seq<char>, ExpressionView)>,
                LoweringError,
            >(entry_views(map_entries(args))),
        decreases t.args.len() - k,
    {
        proof {
            assert(t.args@.take(k + 1).drop_last() =~= t.args@.take(k as int));
            assert(t.args@.take(k + 1).last() == t.args@[k as int]);
        }
        match lower_expression(&t.args[k].1) {
            Ok(v) => {
                proof {
                    lemma_with_entry_views(map_entries(args), t.args@[k as int].0@, v);
                }
                map_insert(&mut args, t.args[k].0.clone(), v);
            },
            Err(e) => {
                proof {
                    lemma_test_args_prefix_error(t.args@, k as int + 1);
                }
                return Err(e);
            },
        }
        k += 1;
    }
    assert(t.args@.take(t.args.len() as int) =~= t.args@);
    Ok(
        Node {
            attributes: span_only(t.span),
            elem: TestCase { name: t.name.clone(), functions, args },
        },
    )
}

/// Whether a test names the function among those it applies to.
pub open spec fn applies_to(t: ast::TestDecl, name: Seq<char>) -> bool {
    exists|j: int| 0 <= j < t.functions@.len() && (#[trigger] t.functions@[j]).0@ == name
}

/// The tests that apply to a function, in declaration order.
pub open spec fn applicable_tests(tests: Seq<ast::TestDecl>, name: Seq<char>) -> Seq<ast::TestDecl>
    decreases tests.len(),
{
    if tests.len() == 0 {
        Seq::empty()
    } else {
        let rest = applicable_tests(tests.drop_last(), name);
        if applies_to(tests.last(), name) {
            rest.push(tests.last())
        } else {
            rest
        }
    }
}

/// What each test of a list lowers to.
pub open spec fn lowered_tests(tests: Seq<ast::TestDecl>) -> Seq<
    Result<NodeView<TestCaseView>, LoweringError>,
> {
    Seq::new(tests.len(), |i: int| lowered_test_case(tests[i]))
}

/// The model of a client spec as written in source.
pub open spec fn lowered_client_spec(c: ast::ClientSpec) -> ClientSpecView {
    match c {
        ast::ClientSpec::Named(n) => ClientSpecView::Named(n@),
        ast::ClientSpec::Shorthand(p, m) => ClientSpecView::Shorthand(p@, m@),
    }
}

/// What a function lowers to.
///
/// A function needs its parameter list, its return type and a client that can
/// be understood; lacking one is an error at the function. It has one
/// configuration, named `default_config`, with its prompt and client. Its tests
/// are those of the schema that apply to it. Failures come in the order of
/// parameters, return type, client, tests.
pub open spec fn lowered_function(f: ast::FunctionDecl, db: ParserDatabase) -> Result<
    NodeView<FunctionView>,
    LoweringError,
> {
    let malformed = LoweringError {
        kind: LoweringErrorKind::MalformedFunctionSignature,
        span: f.span,
    };
    match f.input {
        None => Err(malformed),
        Some(args) => match collect_results(lowered_args(args@, db)) {
            Err(e) => Err(e),
            Ok(inputs) => match f.output {
                None => Err(malformed),
                Some(out) => match lowered_type(out, db) {
                    Err(e) => Err(e),
                    Ok(output) => match f.client {
                        None => Err(
                            LoweringError {
                                kind: LoweringErrorKind::InvalidClientSpec,
                                span: f.span,
                            },
                        ),
                        Some(c) => match collect_results(
                            lowered_tests(applicable_tests(db.tests@, f.name@)),
                        ) {
                            Err(e) => Err(e),
                            Ok(tests) => Ok(
                                NodeView {
                                    attributes: span_attributes(f.span),
                                    elem: FunctionView {
                                        name: f.name@,
                                        inputs,
                                        output,
                                        tests,
                                        configs: seq![
                                            FunctionConfigView {
                                                name: "default_config"@,
                                                prompt_template: f.prompt@,
                                                prompt_span: f.span,
                                                client: lowered_client_spec(c),
                                            },
                                        ],
                                        default_config: "default_config"@,
                                    },
                                },
                            ),
                        },
                    },
                },
            },
        },
    }
}

fn names_function(t: &ast::TestDecl, name: &String) -> (r: bool)
    ensures
        r == applies_to(*t, name@),
{
    let mut j: usize = 0;
    while j < t.functions.len()
        invariant
            j <= t.functions.len(),
            forall|k: int| 0 <= k < j ==> (#[trigger] t.functions@[k]).0@ != name@,
        decreases t.functions.len() - j,
    {
        if t.functions[j].0 == *name {
            return true;
        }
        j += 1;
    }
    false
}

fn lower_tests_of(tests: &Vec<ast::TestDecl>, name: &String) -> (r: Result<
    Vec<Node<TestCase>>,
    LoweringError,
>)
    ensures
        match r {
            Ok(v) => collect_results(lowered_tests(applicable_tests(tests@, name@))) == Ok::<
                Seq<NodeView<TestCaseView>>,
                LoweringError,
            >(views(v@)),
            Err(e) => collect_results(lowered_tests(applicable_tests(tests@, name@))) == Err::<
                Seq<NodeView<TestCaseView>>,
                LoweringError,
            >(e),
        },
{
    let mut chosen: Vec<usize> = Vec::new();
    let mut i: usize = 0;
    assert(tests@.take(0) =~= Seq::empty());
    while i < tests.len()
        invariant
            i <= tests.len(),
            chosen@.len() == applicable_tests(tests@.take(i as int), name@).len(),
            forall|j: int|
                0 <= j < chosen@.len() ==> (#[trigger] chosen@[j]) < tests@.len()
                    && tests@[chosen@[j] as int] == applicable_tests(
                    tests@.take(i as int),
                    name@,
                )[j],
        decreases tests.len() - i,
    {
        proof {
            assert(tests@.take(i + 1).drop_last() =~= tests@.take(i as int));
            assert(tests@.take(i + 1).last() == tests@[i as int]);
        }
        let ghost before = chosen@;
        let ghost earlier = applicable_tests(tests@.take(i as int), name@);
        if names_function(&tests[i], name) {
            chosen.push(i);
            assert(forall|j: int| 0 <= j < before.len() ==> chosen@[j] == before[j]);
            assert(applicable_tests(tests@.take(i + 1), name@) == earlier.push(tests@[i as int]));
        } else {
            assert(applicable_tests(tests@.take(i + 1), name@) == earlier);
        }
        i += 1;
    }
    assert(tests@.take(tests.len() as int) =~= tests@);
    let ghost selected = applicable_tests(tests@, name@);
    let ghost rs = lowered_tests(selected);
    let mut out: Vec<Node<TestCase>> = Vec::new();
    let mut k: usize = 0;
    assert(views(out@) =~= Seq::empty());
    assert(rs.take(0) =~= Seq::empty());
    while k < chosen.len()
        invariant
            k <= chosen.len(),
            selected == applicable_tests(tests@, name@),
            rs == lowered_tests(selected),
            chosen@.len() == selected.len(),
            forall|j: int|
                0 <= j < chosen@.len() ==> (#[trigger] chosen@[j]) < tests@.len()
                    && tests@[chosen@[j] as int] == selected[j],
            collect_results(rs.take(k as int)) == Ok::<
                Seq<NodeView<TestCaseView>>,
                LoweringError,
            >(views(out@)),
        decreases chosen.len() - k,
    {
        let ghost before = out@;
        proof {
            lemma_collect_step(rs, k as int);
        }
        match lower_test_case(&tests[chosen[k]]) {
            Ok(t) => {
                out.push(t);
                assert(views(out@) =~= views(before).push(t@));
            },
            Err(e) => {
                proof {
                    lemma_collect_prefix_error(rs, k as int + 1);
                }
                return Err(e);
            },
        }
        k += 1;
    }
    assert(rs.take(chosen.len() as int) =~= rs);
    Ok(out)
}

fn lower_client_spec(c: &ast::ClientSpec) -> (r: ClientSpec)
    ensures
        r@ == lowered_client_spec(*c),
{
    match c {
        ast::ClientSpec::Named(n) => ClientSpec::Named(n.clone()),
        ast::ClientSpec::Shorthand(p, m) => ClientSpec::Shorthand(p.clone(), m.clone()),
    }
}

impl From<ast::ClientSpec> for ClientSpec {
    fn from(spec: ast::ClientSpec) -> (r: ClientSpec) {
        match spec {
            ast::ClientSpec::Named(n) => ClientSpec::Named(n),
            ast::ClientSpec::Shorthand(provider, model) => ClientSpec::Shorthand(provider, model),
        }
    }
}

impl vstd::std_specs::convert::FromSpecImpl<ast::ClientSpec> for ClientSpec {
    open spec fn obeys_from_spec() -> bool {
        true
    }

    open spec fn from_spec(spec: ast::ClientSpec) -> ClientSpec {
        match spec {
            ast::ClientSpec::Named(n) => ClientSpec::Named(n),
            ast::ClientSpec::Shorthand(provider, model) => ClientSpec::Shorthand(provider, model),
        }
    }
}

/// Lowers a function with the tests that apply to it.
pub fn lower_function(f: &ast::FunctionDecl, db: &ParserDatabase) -> (r: Result<
    Node<Function>,
    LoweringError,
>)
    ensures
        ok_view(r) == lowered_function(*f, *db),
{
    let inputs = match &f.input {
        Some(args) => match lower_args(args, db) {
            Ok(v) => v,
            Err(e) => {
                return Err(e);
            },
        },
        None => {
            return Err(
                LoweringError {
                    kind: LoweringErrorKind::MalformedFunctionSignature,
                    span: f.span,
                },
            );
        },
    };
    let output = match &f.output {
        Some(t) => match lower_type(t, db) {
            Ok(v) => v,
            Err(e) => {
                return Err(e);
            },
        },
        None => {
            return Err(
                LoweringError {
                    kind: LoweringErrorKind::MalformedFunctionSignature,
                    span: f.span,
                },
            );
        },
    };
    let client = match &f.client {
        Some(c) => lower_client_spec(c),
        None => {
            return Err(
                LoweringError { kind: LoweringErrorKind::InvalidClientSpec, span: f.span },
            );
        },
    };
    let tests = match lower_tests_of(&db.tests, &f.name) {
        Ok(t) => t,
        Err(e) => {
            return Err(e);
        },
    };
    let mut configs: Vec<FunctionConfig> = Vec::new();
    let config = FunctionConfig {
        name: String::from_str("default_config"),
        prompt_template: f.prompt.clone(),
        prompt_span: f.span,
        client,
    };
    let ghost config_view = config@;
    configs.push(config);
    assert(views(configs@) =~= seq![config_view]);
    Ok(
        Node {
            attributes: span_only(f.span),
            elem: Function {
                name: f.name.clone(),
                inputs,
                output,
                tests,
                configs,
                default_config: String::from_str("default_config"),
            },
        },
    )
}

/// The chat messages of a prompt: each piece of content that belongs to a chat
/// block, with the index and role of the block; pieces outside blocks are left
/// out.
pub open spec fn chat_messages(pieces: Seq<(Option<ast::ChatBlock>, String)>) -> Seq<
    ChatMessageView,
>
    decreases pieces.len(),
{
    if pieces.len() == 0 {
        Seq::empty()
    } else {
        let rest = chat_messages(pieces.drop_last());
        match pieces.last().0 {
            Some(block) => rest.push(
                ChatMessageView { idx: block.idx, role: block.role@, content: pieces.last().1@ },
            ),
            None => rest,
        }
    }
}

/// What a prompt lowers to. A plain prompt has no input replacers.
pub open spec fn lowered_prompt(p: ast::PromptAst) -> PromptView {
    match p {
        ast::PromptAst::String(content, _) => PromptView::String(content@, Seq::empty()),
        ast::PromptAst::Chat(pieces, replacers) => PromptView::Chat(
            chat_messages(pieces@),
            pair_views(replacers@),
        ),
    }
}

/// Lowers a prompt.
pub fn lower_prompt(p: &ast::PromptAst) -> (r: Prompt)
    ensures
        r@ == lowered_prompt(*p),
{
    match p {
        ast::PromptAst::String(content, _) => {
            let replacers: Vec<(String, String)> = Vec::new();
            assert(pair_views(replacers@) =~= Seq::empty());
            Prompt::String(content.clone(), replacers)
        },
        ast::PromptAst::Chat(pieces, replacers) => {
            let mut messages: Vec<ChatMessage> = Vec::new();
            let mut i: usize = 0;
            assert(views(messages@) =~= Seq::<ChatMessageView>::empty());
            assert(pieces@.take(0) =~= Seq::empty());
            while i < pieces.len()
                invariant
                    i <= pieces.len(),
                    views(messages@) == chat_messages(pieces@.take(i as int)),
                decreases pieces.len() - i,
            {
                let ghost before = messages@;
                proof {
                    assert(pieces@.take(i + 1).drop_last() =~= pieces@.take(i as int));
                    assert(pieces@.take(i + 1).last() == pieces@[i as int]);
                }
                match &pieces[i].0 {
                    Some(block) => {
                        let m = ChatMessage {
                            idx: block.idx,
                            role: block.role.clone(),
                            content: pieces[i].1.clone(),
                        };
                        messages.push(m);
                        assert(views(messages@) =~= views(before).push(m@));
                    },
                    None => {},
                }
                i += 1;
            }
            assert(pieces@.take(pieces.len() as int) =~= pieces@);
            let mut copied: Vec<(String, String)> = Vec::new();
            let mut k: usize = 0;
            while k < replacers.len()
                invariant
                    k <= replacers.len(),
                    pair_views(copied@) =~= pair_views(replacers@).take(k as int),
                decreases replacers.len() - k,
            {
                let ghost before = copied@;
                let ghost entry = (replacers@[k as int].0@, replacers@[k as int].1@);
                copied.push((replacers[k].0.clone(), replacers[k].1.clone()));
                assert(pair_views(copied@) =~= pair_views(before).push(entry));
                k += 1;
            }
            assert(pair_views(replacers@).take(replacers.len() as int) =~= pair_views(replacers@));
            Prompt::Chat(messages, copied)
        },
    }
}

} // verus!
