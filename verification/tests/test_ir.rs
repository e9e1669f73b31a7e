use baml_ir::ast;
use baml_ir::ast::FieldArity;
use baml_ir::ast::ParserDatabase;
use baml_ir::ast::RetryPolicyStrategy;
use baml_ir::ast::Span;
use baml_ir::cycles::find_cycles;
use baml_ir::entities::lower_class;
use baml_ir::entities::lower_enum;
use baml_ir::expression::Expression;
use baml_ir::expression::Identifier;
use baml_ir::functions::lower_function;
use baml_ir::functions::lower_prompt;
use baml_ir::functions::lower_test_case;
use baml_ir::graph::find_components;
use baml_ir::graph::reach_matrix;
use baml_ir::graph::reachable_from;
use baml_ir::ir::Configuration;
use baml_ir::ir::IntermediateRepr;
use baml_ir::ir::WithRepr;
use baml_ir::lowering::LoweringError;
use baml_ir::lowering::LoweringErrorKind;
use baml_ir::repr::ChatMessage;
use baml_ir::repr::Class;
use baml_ir::repr::ClientSpec;
use baml_ir::repr::Prompt;
use baml_ir::sorting::sort_by_name;
use baml_ir::types::FieldType;
use baml_ir::types::TypeValue;

fn span(start: usize) -> Span {
    Span { file: 0, start, end: start + 1 }
}

fn empty_db() -> ParserDatabase {
    ParserDatabase {
        enums: vec![],
        classes: vec![],
        functions: vec![],
        clients: vec![],
        retry_policies: vec![],
        template_strings: vec![],
        tests: vec![],
    }
}

fn sym(arity: FieldArity, name: &str) -> ast::FieldType {
    ast::FieldType::Symbol(arity, name.to_string(), span(2), vec![])
}

fn prim(t: TypeValue) -> ast::FieldType {
    ast::FieldType::Primitive(FieldArity::Required, t, span(1), vec![])
}

fn field(name: &str, t: ast::FieldType) -> ast::FieldDecl {
    ast::FieldDecl { name: name.to_string(), span: span(20), attributes: None, expr: Some(t) }
}

fn class(name: &str, fields: Vec<ast::FieldDecl>) -> ast::ClassDecl {
    ast::ClassDecl { name: name.to_string(), span: span(0), attributes: None, fields, input: None }
}

fn function(name: &str) -> ast::FunctionDecl {
    ast::FunctionDecl {
        name: name.to_string(),
        span: span(30),
        input: Some(vec![ast::BlockArg { name: "text".to_string(), field_type: prim(TypeValue::String) }]),
        output: Some(prim(TypeValue::Int)),
        prompt: "Count {{ text }}".to_string(),
        prompt_expressions: vec![baml_ir::evaluate_type::expr::Expr::Var("text".to_string())],
        client: Some(ast::ClientSpec::Shorthand("openai".to_string(), "gpt-4o".to_string())),
    }
}

fn client(name: &str, options: Vec<(String, ast::Expression)>) -> ast::ClientDecl {
    ast::ClientDecl {
        name: name.to_string(),
        span: span(40),
        provider: "openai".to_string(),
        retry_policy: Some(("Backoff".to_string(), span(41))),
        options,
    }
}

fn env(name: &str) -> ast::Expression {
    ast::Expression::Identifier(ast::Identifier::ENV(name.to_string(), span(50)))
}

fn class_db(edges: Vec<(&str, Vec<ast::FieldType>)>) -> ParserDatabase {
    let mut db = empty_db();
    for (name, types) in edges {
        db.classes.push(class(
            name,
            types.into_iter().enumerate().map(|(i, t)| field(&format!("f{}", i), t)).collect(),
        ));
    }
    db
}

fn cycles_of(db: &ParserDatabase) -> Vec<Vec<String>> {
    let ir = IntermediateRepr::from_parser_database(db, Configuration::new()).unwrap();
    ir.finite_recursive_cycles()
        .iter()
        .map(|set| set.iter().cloned().collect())
        .collect()
}

fn names(v: &[&str]) -> Vec<String> {
    v.iter().map(|s| s.to_string()).collect()
}

#[test]
fn empty_representation() {
    let ir = IntermediateRepr::create_empty();
    assert!(ir.walk_enums().is_empty());
    assert!(ir.walk_classes().is_empty());
    assert!(ir.walk_functions().is_empty());
    assert!(ir.walk_tests().is_empty());
    assert!(ir.walk_clients().is_empty());
    assert!(ir.walk_template_strings().is_empty());
    assert!(ir.walk_retry_policies().is_empty());
    assert!(ir.function_names().is_empty());
    assert!(ir.finite_recursive_cycles().is_empty());
    assert!(ir.required_env_vars().is_empty());
    assert_eq!(*ir.configuration(), Configuration::new());
    assert_eq!(IntermediateRepr::from_parser_database(&empty_db(), Configuration::new()), Ok(ir));
}

#[test]
fn entities_are_sorted_by_name() {
    let mut db = class_db(vec![("Zebra", vec![]), ("apple", vec![]), ("Mango", vec![]), ("Apple", vec![])]);
    db.enums.push(ast::EnumDecl { name: "B".to_string(), span: span(0), attributes: None, values: vec![] });
    db.enums.push(ast::EnumDecl { name: "A".to_string(), span: span(0), attributes: None, values: vec![] });
    db.functions.push(function("second"));
    db.functions.push(function("first"));
    db.clients.push(client("c2", vec![]));
    db.clients.push(client("c1", vec![]));
    db.retry_policies.push(ast::RetryPolicyDecl {
        name: "Z".to_string(),
        span: span(0),
        max_retries: 3,
        strategy: RetryPolicyStrategy::ConstantDelay { delay_ms: 200 },
        options: None,
    });
    db.retry_policies.push(ast::RetryPolicyDecl {
        name: "Backoff".to_string(),
        span: span(0),
        max_retries: 5,
        strategy: RetryPolicyStrategy::ExponentialBackoff { delay_ms: 200, multiplier_permille: 1500, max_delay_ms: 10000 },
        options: Some(vec![("k".to_string(), ast::Expression::BoolValue(true, span(1)))]),
    });
    db.template_strings.push(ast::TemplateStringDecl { name: "t2".to_string(), span: span(0), input: None, template: "b".to_string() });
    db.template_strings.push(ast::TemplateStringDecl {
        name: "t1".to_string(),
        span: span(0),
        input: Some(vec![ast::BlockArg { name: "x".to_string(), field_type: prim(TypeValue::Int) }]),
        template: "a".to_string(),
    });
    let ir = IntermediateRepr::from_parser_database(&db, Configuration::new()).unwrap();
    let class_names: Vec<&str> = ir.walk_classes().iter().map(|w| w.item.elem.name.as_str()).collect();
    assert_eq!(class_names, vec!["Apple", "Mango", "Zebra", "apple"]);
    let enum_names: Vec<&str> = ir.walk_enums().iter().map(|w| w.item.elem.name.as_str()).collect();
    assert_eq!(enum_names, vec!["A", "B"]);
    assert_eq!(ir.function_names(), vec!["first", "second"]);
    let client_names: Vec<&str> = ir.walk_clients().iter().map(|w| w.item.elem.name.as_str()).collect();
    assert_eq!(client_names, vec!["c1", "c2"]);
    let policies = ir.walk_retry_policies();
    assert_eq!(policies[0].item.elem.name.0, "Backoff");
    assert_eq!(policies[0].item.elem.max_retries, 5);
    assert_eq!(policies[0].item.elem.options, vec![("k".to_string(), Expression::Bool(true))]);
    assert_eq!(policies[1].item.elem.name.0, "Z");
    assert!(policies[1].item.elem.options.is_empty());
    let templates = ir.walk_template_strings();
    assert_eq!(templates[0].item.elem.name, "t1");
    assert_eq!(templates[0].item.elem.params[0].name, "x");
    assert_eq!(templates[0].item.elem.params[0].field_type.elem, FieldType::Primitive(TypeValue::Int));
    assert_eq!(templates[0].item.elem.params[0].field_type.attributes.span, Some(span(1)));
    assert_eq!(templates[1].item.elem.content, "b");
}

#[test]
fn lowering_twice_gives_the_same_representation() {
    let mut db = class_db(vec![("B", vec![sym(FieldArity::Optional, "A")]), ("A", vec![sym(FieldArity::Required, "B")])]);
    db.functions.push(function("f"));
    db.clients.push(client("c", vec![("api_key".to_string(), env("KEY"))]));
    let first = IntermediateRepr::from_parser_database(&db, Configuration::new());
    let second = IntermediateRepr::from_parser_database(&db, Configuration::new());
    assert!(first.is_ok());
    assert_eq!(first, second);
}

#[test]
fn sorting_keeps_equal_names_in_order_and_sorted_input_as_is() {
    let db = empty_db();
    let make = |name: &str, mark: &str| {
        lower_class(&class(name, vec![field(mark, prim(TypeValue::Int))]), &db).unwrap()
    };
    let sorted = sort_by_name(vec![make("b", "1"), make("a", "2"), make("b", "3"), make("a", "4")]);
    let marks: Vec<&str> = sorted.iter().map(|c| c.elem.static_fields[0].elem.name.as_str()).collect();
    assert_eq!(marks, vec!["2", "4", "1", "3"]);
    let again = sort_by_name(sorted);
    let marks: Vec<&str> = again.iter().map(|c| c.elem.static_fields[0].elem.name.as_str()).collect();
    assert_eq!(marks, vec!["2", "4", "1", "3"]);
    let words = sort_by_name(names(&["b", "", "ab", "a", "B", "aa"]));
    assert_eq!(words, names(&["", "B", "a", "aa", "ab", "b"]));
}

#[test]
fn first_failure_fails_the_assembly() {
    let mut db = class_db(vec![("A", vec![sym(FieldArity::Required, "Missing")])]);
    db.clients.push(client(
        "c",
        vec![("x".to_string(), ast::Expression::Identifier(ast::Identifier::Invalid("?".to_string(), span(9))))],
    ));
    assert_eq!(
        IntermediateRepr::from_parser_database(&db, Configuration::new()),
        Err(LoweringError { kind: LoweringErrorKind::UnresolvableIdentifier, span: span(2) })
    );
    db.classes.clear();
    assert_eq!(
        IntermediateRepr::from_parser_database(&db, Configuration::new()),
        Err(LoweringError { kind: LoweringErrorKind::InvalidIdentifier, span: span(9) })
    );
}

#[test]
fn class_lowering_reports_fields_and_inputs() {
    let mut db = empty_db();
    let mut decl = class("A", vec![field("x", prim(TypeValue::Int))]);
    decl.fields[0].attributes = Some(ast::Attributes {
        description: None,
        alias: Some("ex".to_string()),
        dynamic_type: None,
        skip: None,
        constraints: vec![],
    });
    decl.input = Some(vec![ast::BlockArg { name: "p".to_string(), field_type: prim(TypeValue::Bool) }]);
    db.classes.push(class("A", vec![]));
    let node = lower_class(&decl, &db).unwrap();
    assert_eq!(node.elem.name, "A");
    assert_eq!(node.attributes.span, Some(span(0)));
    assert_eq!(node.elem.inputs(), &vec![("p".to_string(), FieldType::Primitive(TypeValue::Bool))]);
    let f = &node.elem.static_fields[0];
    assert_eq!(f.elem.name, "x");
    assert_eq!(f.attributes.get("alias"), Some(&Expression::String("ex".to_string())));
    assert_eq!(f.elem.field_type.attributes.get("alias"), Some(&Expression::String("ex".to_string())));
    assert_eq!(f.elem.field_type.elem, FieldType::Primitive(TypeValue::Int));
    assert_eq!(decl.repr(&db), Ok(node.elem));

    let mut broken = class("B", vec![]);
    broken.fields.push(ast::FieldDecl { name: "y".to_string(), span: span(77), attributes: None, expr: None });
    let e = lower_class(&broken, &db).err().unwrap();
    assert_eq!(e, LoweringError { kind: LoweringErrorKind::MissingFieldType, span: span(77) });
    assert_eq!(e.message(), "Internal error occurred while resolving repr of field");
}

#[test]
fn enum_lowering_keeps_values_in_order() {
    let decl = ast::EnumDecl {
        name: "Color".to_string(),
        span: span(5),
        attributes: None,
        values: vec![
            ast::EnumValueDecl { name: "Red".to_string(), span: span(6), attributes: None },
            ast::EnumValueDecl {
                name: "Blue".to_string(),
                span: span(7),
                attributes: Some(ast::Attributes {
                    description: None,
                    alias: None,
                    dynamic_type: None,
                    skip: Some(true),
                    constraints: vec![],
                }),
            },
        ],
    };
    let node = lower_enum(&decl);
    assert_eq!(node.elem.name, "Color");
    let values: Vec<&str> = node.elem.values.iter().map(|v| v.elem.0.as_str()).collect();
    assert_eq!(values, vec!["Red", "Blue"]);
    assert_eq!(node.elem.values[1].attributes.get("skip"), Some(&Expression::Bool(true)));
    assert_eq!(node.elem.values[0].attributes.get("skip"), None);
    assert_eq!(node.elem.values[0].attributes.span, Some(span(6)));
}

#[test]
fn function_lowering() {
    let mut db = empty_db();
    db.tests.push(ast::TestDecl {
        name: "other".to_string(),
        span: span(60),
        functions: vec![("g".to_string(), span(61))],
        args: vec![],
    });
    db.tests.push(ast::TestDecl {
        name: "mine".to_string(),
        span: span(62),
        functions: vec![("g".to_string(), span(63)), ("f".to_string(), span(64))],
        args: vec![
            ("text".to_string(), ast::Expression::StringValue("a".to_string(), span(65))),
            ("n".to_string(), ast::Expression::NumericValue("1".to_string(), span(66))),
            ("text".to_string(), ast::Expression::StringValue("b".to_string(), span(67))),
        ],
    });
    let node = lower_function(&function("f"), &db).unwrap();
    let f = &node.elem;
    assert_eq!(f.name(), "f");
    assert_eq!(f.inputs(), &vec![("text".to_string(), FieldType::Primitive(TypeValue::String))]);
    assert_eq!(f.output(), &FieldType::Primitive(TypeValue::Int));
    assert_eq!(f.default_config, "default_config");
    let configs = f.configs().unwrap();
    assert_eq!(configs.len(), 1);
    assert_eq!(configs[0].name, "default_config");
    assert_eq!(configs[0].prompt_template, "Count {{ text }}");
    assert_eq!(configs[0].prompt_span, span(30));
    assert_eq!(configs[0].client, ClientSpec::Shorthand("openai".to_string(), "gpt-4o".to_string()));
    assert_eq!(f.tests().len(), 1);
    let test = &f.tests()[0].elem;
    assert_eq!(test.name, "mine");
    let called: Vec<&str> = test.functions.iter().map(|n| n.elem.name()).collect();
    assert_eq!(called, vec!["g", "f"]);
    assert_eq!(test.functions[1].attributes.span, Some(span(64)));
    assert_eq!(
        test.args.iter().map(|(k, v)| (k.as_str(), v)).collect::<Vec<_>>(),
        vec![
            ("text", &Expression::String("b".to_string())),
            ("n", &Expression::Numeric("1".to_string())),
        ]
    );
}

#[test]
fn malformed_functions_are_errors() {
    let db = empty_db();
    let mut f = function("f");
    f.input = None;
    assert_eq!(
        lower_function(&f, &db),
        Err(LoweringError { kind: LoweringErrorKind::MalformedFunctionSignature, span: span(30) })
    );
    let mut f = function("f");
    f.output = None;
    let e = lower_function(&f, &db).err().unwrap();
    assert_eq!(e.kind, LoweringErrorKind::MalformedFunctionSignature);
    assert_eq!(e.message(), "Function is missing its inputs or its output");
    let mut f = function("f");
    f.client = None;
    let e = lower_function(&f, &db).err().unwrap();
    assert_eq!(e, LoweringError { kind: LoweringErrorKind::InvalidClientSpec, span: span(30) });
    assert_eq!(e.message(), "Function names an invalid client");
}

#[test]
fn test_case_with_invalid_argument_fails() {
    let t = ast::TestDecl {
        name: "t".to_string(),
        span: span(1),
        functions: vec![],
        args: vec![(
            "a".to_string(),
            ast::Expression::Identifier(ast::Identifier::Invalid("!".to_string(), span(8))),
        )],
    };
    assert_eq!(
        lower_test_case(&t),
        Err(LoweringError { kind: LoweringErrorKind::InvalidIdentifier, span: span(8) })
    );
}

#[test]
fn prompts_keep_only_messages_in_chat_blocks() {
    let plain = ast::PromptAst::String("hello".to_string(), span(1));
    assert_eq!(lower_prompt(&plain), Prompt::String("hello".to_string(), vec![]));
    let chat = ast::PromptAst::Chat(
        vec![
            (None, "preamble".to_string()),
            (Some(ast::ChatBlock { idx: 0, role: "system".to_string() }), "be kind".to_string()),
            (Some(ast::ChatBlock { idx: 1, role: "user".to_string() }), "hi".to_string()),
        ],
        vec![("{a}".to_string(), "a".to_string())],
    );
    assert_eq!(
        lower_prompt(&chat),
        Prompt::Chat(
            vec![
                ChatMessage { idx: 0, role: "system".to_string(), content: "be kind".to_string() },
                ChatMessage { idx: 1, role: "user".to_string(), content: "hi".to_string() },
            ],
            vec![("{a}".to_string(), "a".to_string())],
        )
    );
}

#[test]
fn required_env_vars_are_listed_once() {
    let mut db = empty_db();
    db.clients.push(client(
        "b",
        vec![
            ("api_key".to_string(), env("OPENAI_API_KEY")),
            (
                "headers".to_string(),
                ast::Expression::Array(
                    vec![
                        ast::Expression::StringValue("x".to_string(), span(1)),
                        ast::Expression::Array(vec![env("NESTED")], span(2)),
                    ],
                    span(3),
                ),
            ),
        ],
    ));
    db.clients.push(client(
        "a",
        vec![(
            "m".to_string(),
            ast::Expression::Mapping(vec![(env("K"), env("OPENAI_API_KEY"))], span(4)),
        )],
    ));
    let ir = IntermediateRepr::from_parser_database(&db, Configuration::new()).unwrap();
    assert_eq!(ir.required_env_vars(), names(&["K", "OPENAI_API_KEY", "NESTED"]));
    let clients = ir.walk_clients();
    assert_eq!(clients[1].item.elem.required_env_vars(), names(&["OPENAI_API_KEY", "NESTED"]));
    assert_eq!(clients[1].item.elem.retry_policy_id, Some("Backoff".to_string()));
    assert_eq!(clients[1].item.elem.provider, "openai");
}

#[test]
fn nested_env_var_is_returned_exactly_once() {
    let mut db = empty_db();
    db.clients.push(client(
        "c",
        vec![(
            "options".to_string(),
            ast::Expression::Array(vec![ast::Expression::Array(vec![env("TOKEN")], span(1))], span(2)),
        )],
    ));
    let ir = IntermediateRepr::from_parser_database(&db, Configuration::new()).unwrap();
    let vars = ir.required_env_vars();
    assert_eq!(vars.iter().filter(|v| v.as_str() == "TOKEN").count(), 1);
    assert_eq!(vars.len(), 1);
}

#[test]
fn walk_tests_pairs_functions_with_their_tests() {
    let mut db = empty_db();
    db.functions.push(function("g"));
    db.functions.push(function("f"));
    for (name, functions) in [("t1", vec!["f"]), ("t2", vec!["f", "g"]), ("t3", vec!["h"])] {
        db.tests.push(ast::TestDecl {
            name: name.to_string(),
            span: span(1),
            functions: functions.into_iter().map(|f| (f.to_string(), span(2))).collect(),
            args: vec![],
        });
    }
    let ir = IntermediateRepr::from_parser_database(&db, Configuration::new()).unwrap();
    let pairs: Vec<(&str, &str)> = ir
        .walk_tests()
        .iter()
        .map(|w| (w.item.0.elem.name(), w.item.1.elem.name.as_str()))
        .collect();
    assert_eq!(pairs, vec![("f", "t1"), ("f", "t2"), ("g", "t2")]);
}

#[test]
fn self_reference_is_a_cycle() {
    let db = class_db(vec![("Node", vec![sym(FieldArity::Optional, "Node")]), ("Leaf", vec![prim(TypeValue::Int)])]);
    assert_eq!(cycles_of(&db), vec![names(&["Node"])]);
}

#[test]
fn mutual_references_form_one_cycle() {
    let list_of = |name: &str| {
        ast::FieldType::List(FieldArity::Required, Box::new(sym(FieldArity::Required, name)), 1, span(3), vec![])
    };
    let db = class_db(vec![
        ("C", vec![sym(FieldArity::Required, "A")]),
        ("A", vec![list_of("B")]),
        ("D", vec![sym(FieldArity::Required, "A")]),
        ("B", vec![ast::FieldType::Union(FieldArity::Optional, vec![prim(TypeValue::Int), sym(FieldArity::Required, "C")], span(4), vec![])]),
    ]);
    assert_eq!(cycles_of(&db), vec![names(&["A", "B", "C"])]);
}

#[test]
fn separate_cycles_are_separate_sets() {
    let map_to = |name: &str| {
        ast::FieldType::Mapping(
            FieldArity::Required,
            Box::new((prim(TypeValue::String), sym(FieldArity::Required, name))),
            span(3),
            vec![],
        )
    };
    let tuple_of = |name: &str| {
        ast::FieldType::Tuple(FieldArity::Required, vec![prim(TypeValue::Int), sym(FieldArity::Optional, name)], span(3), vec![])
    };
    let db = class_db(vec![
        ("A", vec![map_to("B")]),
        ("B", vec![tuple_of("A"), sym(FieldArity::Required, "X")]),
        ("X", vec![sym(FieldArity::Required, "Y")]),
        ("Y", vec![sym(FieldArity::Required, "X"), sym(FieldArity::Required, "Z")]),
        ("Z", vec![prim(TypeValue::Int)]),
    ]);
    assert_eq!(cycles_of(&db), vec![names(&["A", "B"]), names(&["X", "Y"])]);
}

#[test]
fn chains_and_enums_are_no_cycles() {
    let mut db = class_db(vec![
        ("A", vec![sym(FieldArity::Required, "B")]),
        ("B", vec![sym(FieldArity::Required, "C"), sym(FieldArity::Required, "E")]),
        ("C", vec![]),
    ]);
    db.enums.push(ast::EnumDecl { name: "E".to_string(), span: span(0), attributes: None, values: vec![] });
    assert!(cycles_of(&db).is_empty());
}

#[test]
fn constrained_reference_counts_as_reference() {
    let mut db = class_db(vec![("A", vec![sym(FieldArity::Required, "A")])]);
    db.classes[0].attributes = Some(ast::Attributes {
        description: None,
        alias: None,
        dynamic_type: None,
        skip: None,
        constraints: vec![baml_ir::types::Constraint {
            level: baml_ir::types::ConstraintLevel::Assert,
            expression: baml_ir::types::JinjaExpression("true".to_string()),
            label: None,
        }],
    });
    assert_eq!(cycles_of(&db), vec![names(&["A"])]);
}

#[test]
fn find_cycles_on_lowered_classes() {
    let db = class_db(vec![("B", vec![sym(FieldArity::Required, "A")]), ("A", vec![sym(FieldArity::Required, "B")])]);
    let classes: Vec<baml_ir::node::Node<Class>> =
        db.classes.iter().map(|c| lower_class(c, &db).unwrap()).collect();
    let cycles = find_cycles(&classes);
    assert_eq!(cycles.len(), 1);
    assert_eq!(cycles[0].iter().cloned().collect::<Vec<_>>(), names(&["B", "A"]));
    assert!(cycles[0].contains("A"));
}

#[test]
fn reachability_and_components_of_a_graph() {
    // 0 -> 1 -> 2 -> 1, 3 -> 3, 4 -> 0
    let g = vec![
        vec![false, true, false, false, false],
        vec![false, false, true, false, false],
        vec![false, true, false, false, false],
        vec![false, false, false, true, false],
        vec![true, false, false, false, false],
    ];
    assert_eq!(reachable_from(&g, 0), vec![false, true, true, false, false]);
    assert_eq!(reachable_from(&g, 3), vec![false, false, false, true, false]);
    assert_eq!(reachable_from(&g, 4), vec![true, true, true, false, false]);
    let reach = reach_matrix(&g);
    assert_eq!(reach[1], vec![false, true, true, false, false]);
    assert_eq!(reach[2], vec![false, true, true, false, false]);
    assert_eq!(find_components(&g), vec![vec![1, 2], vec![3]]);
    assert!(find_components(&vec![]).is_empty());
    assert!(find_components(&vec![vec![false]]).is_empty());
}

#[test]
fn identifier_expression_in_client_options() {
    let mut db = empty_db();
    db.clients.push(client(
        "c",
        vec![("model".to_string(), ast::Expression::Identifier(ast::Identifier::Local("fast".to_string(), span(1))))],
    ));
    let ir = IntermediateRepr::from_parser_database(&db, Configuration::new()).unwrap();
    assert_eq!(
        ir.walk_clients()[0].item.elem.options,
        vec![("model".to_string(), Expression::Identifier(Identifier::Local("fast".to_string())))]
    );
}

#[test]
fn declarations_lower_through_the_trait() {
    let mut db = empty_db();
    db.classes.push(class("A", vec![]));
    let t = sym(FieldArity::Optional, "A");
    let node = t.node(&db).unwrap();
    assert_eq!(node.elem, FieldType::Optional(Box::new(FieldType::Class("A".to_string()))));
    assert_eq!(node.attributes.span, Some(span(2)));
    assert_eq!(t.repr(&db), Ok(node.elem));
    assert_eq!(WithRepr::<FieldType>::attributes(&t, &db).span, Some(span(2)));

    let e = env("KEY");
    let lowered: baml_ir::node::Node<Expression> = e.node(&db).unwrap();
    assert_eq!(lowered.elem, Expression::Identifier(Identifier::ENV("KEY".to_string())));
    assert_eq!(lowered.attributes.span, None);

    let f = field("x", sym(FieldArity::Required, "B"));
    assert_eq!(
        WithRepr::<baml_ir::repr::Field>::repr(&f, &db),
        Err(LoweringError { kind: LoweringErrorKind::UnresolvableIdentifier, span: span(2) })
    );
    assert_eq!(WithRepr::<baml_ir::repr::Field>::attributes(&f, &db).span, Some(span(20)));

    let value = ast::EnumValueDecl { name: "Red".to_string(), span: span(6), attributes: None };
    assert_eq!(value.repr(&db), Ok(baml_ir::repr::EnumValue("Red".to_string())));

    let c = client("c", vec![]);
    assert_eq!(c.node(&db).unwrap().attributes.span, Some(span(40)));
    assert_eq!(c.repr(&db).unwrap().name, "c");

    let prompt = ast::PromptAst::String("p".to_string(), span(1));
    assert_eq!(prompt.repr(&db), Ok(Prompt::String("p".to_string(), vec![])));
}

#[test]
fn client_spec_from_declaration() {
    assert_eq!(
        ClientSpec::from(ast::ClientSpec::Named("c".to_string())),
        ClientSpec::Named("c".to_string())
    );
    assert_eq!(
        ClientSpec::from(ast::ClientSpec::Shorthand("p".to_string(), "m".to_string())).as_str(),
        "p/m"
    );
}

#[test]
fn ragged_matrices_lack_the_missing_edges() {
    // row 0 is too short, row 1 too long: 1 -> 0 and 1 -> 1 only
    let g = vec![vec![], vec![true, true, true]];
    assert_eq!(reachable_from(&g, 0), vec![false, false]);
    assert_eq!(reachable_from(&g, 1), vec![true, true]);
    assert_eq!(reachable_from(&g, 7), vec![false, false]);
    assert_eq!(find_components(&g), vec![vec![1]]);
}

#[test]
fn long_cycle_of_many_classes() {
    let n = 60;
    let name = |i: usize| format!("C{:03}", i);
    let edges: Vec<(String, Vec<ast::FieldType>)> = (0..n)
        .map(|i| (name(i), vec![sym(FieldArity::Optional, &name((i + 1) % n))]))
        .collect();
    let mut db = empty_db();
    for (class_name, types) in edges {
        db.classes.push(class(
            &class_name,
            types.into_iter().enumerate().map(|(i, t)| field(&format!("f{}", i), t)).collect(),
        ));
    }
    let cycles = cycles_of(&db);
    assert_eq!(cycles.len(), 1);
    assert_eq!(cycles[0], (0..n).map(name).collect::<Vec<_>>());
}
