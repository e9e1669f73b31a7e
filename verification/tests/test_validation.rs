use baml_ir::ast;
use baml_ir::ast::FieldArity;
use baml_ir::ast::ParserDatabase;
use baml_ir::ast::Span;
use baml_ir::expression::Expression;
use baml_ir::lowering::LoweringErrorKind;
use baml_ir::repr::process_field;
use baml_ir::repr::AliasedKey;
use baml_ir::types::TypeValue;
use baml_ir::evaluate_type::errors::ErrorKind;
use baml_ir::evaluate_type::expr::Const;
use baml_ir::evaluate_type::expr::Expr;
use baml_ir::evaluate_type::registry::PredefinedTypes;
use baml_ir::evaluate_type::types::Type;
use baml_ir::evaluate_type::JinjaContext;
use baml_ir::prompts::registry_for;
use baml_ir::prompts::type_in_expressions;
use baml_ir::prompts::PromptFinding;
use baml_ir::types::FieldType;
use baml_ir::types::LiteralValue;
use baml_ir::validation::validate;
use baml_ir::validation::Context;
use baml_ir::validation::Diagnostics;
use baml_ir::validation::ValidationError;
use baml_ir::validation::ValidationErrorKind;
use indexmap::IndexMap;

fn span(start: usize) -> Span {
    Span { file: 0, start, end: start + 1 }
}

fn empty_db() -> ParserDatabase {
    ParserDatabase {
        enums: vec![],
        classes: vec![],
        functions: vec![],
        clients: vec![],
        retry_policies: vec![],
        template_strings: vec![],
        tests: vec![],
    }
}

fn sym(arity: FieldArity, name: &str, at: usize) -> ast::FieldType {
    ast::FieldType::Symbol(arity, name.to_string(), span(at), vec![])
}

fn class(name: &str, at: usize, types: Vec<ast::FieldType>) -> ast::ClassDecl {
    ast::ClassDecl {
        name: name.to_string(),
        span: span(at),
        attributes: None,
        fields: types
            .into_iter()
            .enumerate()
            .map(|(i, t)| ast::FieldDecl { name: format!("f{}", i), span: span(at), attributes: None, expr: Some(t) })
            .collect(),
        input: None,
    }
}

fn findings(db: &ParserDatabase) -> Vec<ValidationError> {
    let mut ctx = Context { db, diagnostics: Diagnostics::new() };
    validate(&mut ctx);
    ctx.diagnostics.errors
}

fn finding(kind: ValidationErrorKind, at: usize) -> ValidationError {
    ValidationError { kind, span: span(at) }
}

#[test]
fn sound_schema_has_no_findings() {
    let mut db = empty_db();
    db.classes.push(class("A", 1, vec![sym(FieldArity::Optional, "A", 2)]));
    db.classes.push(class("B", 3, vec![sym(FieldArity::Required, "A", 4)]));
    assert!(findings(&db).is_empty());
    let mut ctx = Context { db: &db, diagnostics: Diagnostics::new() };
    assert!(!ctx.diagnostics.has_errors());
    validate(&mut ctx);
    assert!(!ctx.diagnostics.has_errors());
}

#[test]
fn every_declaration_is_checked() {
    let mut db = empty_db();
    db.enums.push(ast::EnumDecl {
        name: "E".to_string(),
        span: span(1),
        attributes: None,
        values: vec![
            ast::EnumValueDecl { name: "A".to_string(), span: span(2), attributes: None },
            ast::EnumValueDecl { name: "B".to_string(), span: span(3), attributes: None },
            ast::EnumValueDecl { name: "A".to_string(), span: span(4), attributes: None },
            ast::EnumValueDecl { name: "A".to_string(), span: span(5), attributes: None },
        ],
    });
    db.classes.push(class("C", 10, vec![sym(FieldArity::Required, "Nope", 11), sym(FieldArity::Required, "E", 12), sym(FieldArity::Required, "Nada", 13)]));
    db.functions.push(ast::FunctionDecl {
        name: "f".to_string(),
        span: span(20),
        input: None,
        output: None,
        prompt: String::new(),
        prompt_expressions: vec![],
        client: None,
    });
    db.clients.push(ast::ClientDecl {
        name: "c".to_string(),
        span: span(30),
        provider: "p".to_string(),
        retry_policy: Some(("Missing".to_string(), span(31))),
        options: vec![(
            "o".to_string(),
            ast::Expression::Identifier(ast::Identifier::Invalid("?".to_string(), span(32))),
        )],
    });
    db.tests.push(ast::TestDecl {
        name: "t".to_string(),
        span: span(40),
        functions: vec![("f".to_string(), span(41)), ("g".to_string(), span(42))],
        args: vec![],
    });
    assert_eq!(
        findings(&db),
        vec![
            finding(ValidationErrorKind::DuplicateEnumValue, 4),
            finding(ValidationErrorKind::DuplicateEnumValue, 5),
            finding(ValidationErrorKind::Lowering(LoweringErrorKind::UnresolvableIdentifier), 11),
            finding(ValidationErrorKind::Lowering(LoweringErrorKind::UnresolvableIdentifier), 13),
            finding(ValidationErrorKind::Lowering(LoweringErrorKind::MalformedFunctionSignature), 20),
            finding(ValidationErrorKind::Lowering(LoweringErrorKind::InvalidIdentifier), 32),
            finding(ValidationErrorKind::UnknownRetryPolicy, 31),
            finding(ValidationErrorKind::UnknownFunction, 42),
        ]
    );
}

#[test]
fn cycles_of_required_classes_are_found_in_sound_schemas_only() {
    let mut db = empty_db();
    db.classes.push(class("A", 1, vec![sym(FieldArity::Required, "B", 2)]));
    db.classes.push(class("B", 3, vec![ast::FieldType::Tuple(
        FieldArity::Required,
        vec![ast::FieldType::Primitive(FieldArity::Required, TypeValue::Int, span(4), vec![]), sym(FieldArity::Required, "A", 5)],
        span(6),
        vec![],
    )]));
    db.classes.push(class("C", 7, vec![sym(FieldArity::Required, "C", 8)]));
    db.classes.push(class("D", 9, vec![sym(FieldArity::Optional, "D", 10)]));
    db.classes.push(class(
        "L",
        11,
        vec![ast::FieldType::List(FieldArity::Required, Box::new(sym(FieldArity::Required, "L", 12)), 1, span(13), vec![])],
    ));
    assert_eq!(
        findings(&db),
        vec![finding(ValidationErrorKind::InfiniteCycle, 1), finding(ValidationErrorKind::InfiniteCycle, 7)]
    );

    db.classes.push(class("X", 20, vec![sym(FieldArity::Required, "Unknown", 21)]));
    assert_eq!(
        findings(&db),
        vec![finding(ValidationErrorKind::Lowering(LoweringErrorKind::UnresolvableIdentifier), 21)]
    );
}

#[test]
fn earlier_findings_stop_the_search_for_cycles() {
    let mut db = empty_db();
    db.classes.push(class("C", 7, vec![sym(FieldArity::Required, "C", 8)]));
    let earlier = finding(ValidationErrorKind::UnknownFunction, 99);
    let mut ctx = Context { db: &db, diagnostics: Diagnostics { errors: vec![earlier], prompt_errors: vec![] } };
    validate(&mut ctx);
    assert_eq!(ctx.diagnostics.errors, vec![earlier]);
}

fn overrides(entries: Vec<(&str, Expression)>) -> IndexMap<(String, String), IndexMap<String, Expression>> {
    let mut inner = IndexMap::new();
    for (k, v) in entries {
        inner.insert(k.to_string(), v);
    }
    let mut outer = IndexMap::new();
    outer.insert(("other".to_string(), "v1".to_string()), IndexMap::new());
    outer.insert(("classify".to_string(), "v1".to_string()), inner);
    outer
}

fn key(alias: &str) -> AliasedKey {
    AliasedKey { key: "Red".to_string(), alias: Expression::String(alias.to_string()) }
}

#[test]
fn aliased_keys_of_a_field() {
    let text = |s: &str| Expression::String(s.to_string());
    let both = overrides(vec![("alias", text("crimson")), ("description", text("a deep red"))]);
    assert_eq!(
        process_field(&both, "Red", "classify", "v1"),
        vec![key("crimson"), key("crimson: a deep red")]
    );
    assert_eq!(process_field(&both, "Red", "classify", "v2"), vec![]);
    assert_eq!(process_field(&both, "Red", "other", "v1"), vec![]);
    let alias_only = overrides(vec![("alias", text("crimson")), ("description", Expression::Bool(true))]);
    assert_eq!(process_field(&alias_only, "Red", "classify", "v1"), vec![key("crimson")]);
    let description_only = overrides(vec![("description", text("a deep red"))]);
    assert_eq!(process_field(&description_only, "Red", "classify", "v1"), vec![key("a deep red")]);
    let neither = overrides(vec![("skip", Expression::Bool(true))]);
    assert_eq!(process_field(&neither, "Red", "classify", "v1"), vec![]);
}

fn var(name: &str) -> Expr {
    Expr::Var(name.to_string())
}

fn get(e: Expr, name: &str) -> Expr {
    Expr::GetAttr { expr: Box::new(e), name: name.to_string() }
}

fn prompt_function(name: &str, at: usize, inputs: Vec<(&str, ast::FieldType)>, expressions: Vec<Expr>) -> ast::FunctionDecl {
    ast::FunctionDecl {
        name: name.to_string(),
        span: span(at),
        input: Some(
            inputs
                .into_iter()
                .map(|(n, t)| ast::BlockArg { name: n.to_string(), field_type: t })
                .collect(),
        ),
        output: Some(ast::FieldType::Primitive(FieldArity::Required, TypeValue::String, span(at), vec![])),
        prompt: String::new(),
        prompt_expressions: expressions,
        client: Some(ast::ClientSpec::Named("c".to_string())),
    }
}

fn validated(db: &ParserDatabase) -> Diagnostics {
    let mut ctx = Context { db, diagnostics: Diagnostics::new() };
    validate(&mut ctx);
    ctx.diagnostics
}

#[test]
fn prompts_are_type_checked_against_inputs_and_classes() {
    let mut db = empty_db();
    db.classes.push(class("Person", 1, vec![ast::FieldType::Primitive(FieldArity::Required, TypeValue::Int, span(2), vec![])]));
    db.functions.push(prompt_function(
        "greet",
        10,
        vec![("who", sym(FieldArity::Required, "Person", 11))],
        vec![
            get(var("who"), "f0"),
            get(var("who"), "age"),
            var("who"),
            get(var("bar"), "f"),
            get(var("ctx"), "client"),
        ],
    ));
    let found = validated(&db);
    assert!(found.errors.is_empty());
    assert!(found.has_errors());
    let messages: Vec<(usize, Vec<&str>)> = found
        .prompt_errors
        .iter()
        .map(|f| (f.expression, f.errors.iter().map(|e| e.message.as_str()).collect()))
        .collect();
    assert_eq!(
        messages,
        vec![
            (1, vec!["class Person (who) does not have a property 'age'"]),
            (3, vec!["Variable `bar` does not exist. Did you mean one of these: `_`, `ctx`, `who`?"]),
        ]
    );
    assert_eq!(found.prompt_errors[0].function, "greet");
    assert_eq!(found.prompt_errors[0].span, span(10));
}

#[test]
fn unknown_variable_in_a_prompt_gives_one_diagnostic() {
    let mut db = empty_db();
    db.functions.push(prompt_function("f", 1, vec![], vec![get(get(var("bar"), "f"), "g")]));
    let found = validated(&db);
    assert_eq!(found.prompt_errors.len(), 1);
    let errors = &found.prompt_errors[0].errors;
    assert_eq!(errors.len(), 1);
    assert_eq!(errors[0].message, "Variable `bar` does not exist. Did you mean one of these: `_`, `ctx`?");
    assert_eq!(
        errors[0].kind,
        ErrorKind::UnresolvedVariable {
            name: "bar".to_string(),
            suggestions: vec!["_".to_string(), "ctx".to_string()],
        }
    );
}

#[test]
fn unknown_output_format_option_lists_every_option() {
    let mut db = empty_db();
    let call = Expr::Call {
        expr: Box::new(get(var("ctx"), "output_format")),
        args: vec![Expr::Kwargs {
            pairs: vec![
                ("prefix".to_string(), Expr::Const(Const::String("1".to_string()))),
                ("unknown".to_string(), Expr::Const(Const::Int(1))),
            ],
        }],
    };
    db.functions.push(prompt_function("f", 1, vec![], vec![call]));
    let found = validated(&db);
    assert_eq!(found.prompt_errors.len(), 1);
    let errors = &found.prompt_errors[0].errors;
    assert_eq!(errors.len(), 1);
    assert_eq!(
        errors[0].message,
        "Function 'baml::OutputFormat' does not have an argument 'unknown'. Did you mean one of these: 'always_hoist_enums', 'enum_value_prefix', 'hoisted_class_prefix', 'or_splitter', 'prefix'?"
    );
}

#[test]
fn ill_typed_prompts_stop_the_search_for_cycles() {
    let mut db = empty_db();
    db.classes.push(class("C", 7, vec![sym(FieldArity::Required, "C", 8)]));
    assert_eq!(findings(&db), vec![finding(ValidationErrorKind::InfiniteCycle, 7)]);
    db.functions.push(prompt_function("f", 1, vec![], vec![var("missing")]));
    let found = validated(&db);
    assert!(found.errors.is_empty());
    assert_eq!(found.prompt_errors.len(), 1);
}

#[test]
fn earlier_prompt_findings_are_kept() {
    let db = empty_db();
    let earlier = PromptFinding { function: "f".to_string(), span: span(1), expression: 0, errors: vec![] };
    let mut ctx = Context {
        db: &db,
        diagnostics: Diagnostics {
            errors: vec![],
            prompt_errors: vec![PromptFinding { function: "f".to_string(), span: span(1), expression: 0, errors: vec![] }],
        },
    };
    validate(&mut ctx);
    assert_eq!(ctx.diagnostics.prompt_errors, vec![earlier]);
}

#[test]
fn field_types_as_expression_types() {
    let text = FieldType::Primitive(TypeValue::String);
    assert_eq!(type_in_expressions(&text), Type::String);
    assert_eq!(type_in_expressions(&FieldType::Primitive(TypeValue::Null)), Type::NoneType);
    assert_eq!(
        type_in_expressions(&FieldType::Primitive(TypeValue::Media(baml_ir::types::BamlMediaType::Image))),
        Type::Unknown
    );
    assert_eq!(type_in_expressions(&FieldType::Class("A".to_string())), Type::ClassRef("A".to_string()));
    assert_eq!(type_in_expressions(&FieldType::Enum("E".to_string())), Type::String);
    assert_eq!(
        type_in_expressions(&FieldType::Literal(LiteralValue::Int(3))),
        Type::Literal(LiteralValue::Int(3))
    );
    assert_eq!(
        type_in_expressions(&FieldType::Optional(Box::new(FieldType::List(Box::new(FieldType::Primitive(TypeValue::Int)))))),
        Type::Optional(Box::new(Type::List(Box::new(Type::Int))))
    );
    assert_eq!(
        type_in_expressions(&FieldType::Union(vec![
            FieldType::Primitive(TypeValue::String),
            FieldType::Primitive(TypeValue::Null),
            FieldType::Enum("E".to_string()),
        ])),
        Type::Union(vec![Type::NoneType, Type::String])
    );
    assert_eq!(
        type_in_expressions(&FieldType::Constrained { base: Box::new(FieldType::Primitive(TypeValue::Bool)), constraints: vec![] }),
        Type::Bool
    );
    assert_eq!(type_in_expressions(&FieldType::Tuple(vec![])), Type::Unknown);
    assert_eq!(
        type_in_expressions(&FieldType::Mapping(Box::new(FieldType::Primitive(TypeValue::String)), Box::new(FieldType::Primitive(TypeValue::String)))),
        Type::Unknown
    );
}

#[test]
fn registry_of_a_function() {
    let mut db = empty_db();
    db.classes.push(class("A", 1, vec![sym(FieldArity::Optional, "A", 2), sym(FieldArity::Required, "Gone", 3)]));
    let f = prompt_function(
        "f",
        5,
        vec![("a", sym(FieldArity::Required, "A", 6)), ("ctx", ast::FieldType::Primitive(FieldArity::Required, TypeValue::Int, span(7), vec![]))],
        vec![],
    );
    let types = registry_for(&f, &db);
    let mut expected = PredefinedTypes::default(JinjaContext::Prompt);
    expected.add_class(
        "A",
        vec![
            ("f0".to_string(), Type::Optional(Box::new(Type::ClassRef("A".to_string())))),
            ("f1".to_string(), Type::Unknown),
        ],
    );
    expected.add_variable("a", Type::ClassRef("A".to_string()));
    expected.add_variable("ctx", Type::Int);
    assert_eq!(types, expected);
    assert_eq!(types.resolve("ctx"), Some(Type::Int));
}
