use baml_ir::ast::FunctionDecl;
use baml_ir::ast::ParserDatabase;
use baml_ir::ast::Span;
use baml_ir::evaluate_type::errors::ErrorKind;
use baml_ir::validation::validate;
use baml_ir::validation::Context;
use baml_ir::validation::Diagnostics;
use baml_ir::evaluate_type::expr::evaluate_type;
use baml_ir::evaluate_type::expr::BinOpKind;
use baml_ir::evaluate_type::expr::Const;
use baml_ir::evaluate_type::expr::Expr;
use baml_ir::evaluate_type::expr::UnaryOpKind;
use baml_ir::evaluate_type::registry::PredefinedTypes;
use baml_ir::evaluate_type::types::Type;
use baml_ir::evaluate_type::JinjaContext;
use baml_ir::types::LiteralValue;
use minijinja::machinery::ast;
use minijinja::machinery::parse_expr;
use minijinja::value::Value;
use minijinja::value::ValueKind;

fn convert_const(v: &Value) -> Const {
    match v.kind() {
        ValueKind::None => Const::NoneValue,
        ValueKind::Bool => Const::Bool(v.is_true()),
        ValueKind::Number => Const::number(&v.to_string()),
        ValueKind::String => Const::String(v.as_str().unwrap().to_string()),
        _ => Const::Other,
    }
}

fn convert_all(es: &[ast::Expr]) -> Vec<Expr> {
    es.iter().map(convert).collect()
}

fn convert_boxed(e: &ast::Expr) -> Box<Expr> {
    Box::new(convert(e))
}

fn convert(e: &ast::Expr) -> Expr {
    match e {
        ast::Expr::Var(v) => Expr::Var(v.id.to_string()),
        ast::Expr::Const(c) => Expr::Const(convert_const(&c.value)),
        ast::Expr::Slice(s) => Expr::Slice {
            expr: convert_boxed(&s.expr),
            start: s.start.as_ref().map(convert_boxed),
            stop: s.stop.as_ref().map(convert_boxed),
            step: s.step.as_ref().map(convert_boxed),
        },
        ast::Expr::UnaryOp(u) => Expr::UnaryOp {
            op: match u.op {
                ast::UnaryOpKind::Not => UnaryOpKind::Not,
                ast::UnaryOpKind::Neg => UnaryOpKind::Neg,
            },
            expr: convert_boxed(&u.expr),
        },
        ast::Expr::BinOp(b) => Expr::BinOp {
            op: match b.op {
                ast::BinOpKind::Eq => BinOpKind::Eq,
                ast::BinOpKind::Ne => BinOpKind::Ne,
                ast::BinOpKind::Lt => BinOpKind::Lt,
                ast::BinOpKind::Lte => BinOpKind::Lte,
                ast::BinOpKind::Gt => BinOpKind::Gt,
                ast::BinOpKind::Gte => BinOpKind::Gte,
                ast::BinOpKind::ScAnd => BinOpKind::ScAnd,
                ast::BinOpKind::ScOr => BinOpKind::ScOr,
                ast::BinOpKind::Add => BinOpKind::Add,
                ast::BinOpKind::Sub => BinOpKind::Sub,
                ast::BinOpKind::Mul => BinOpKind::Mul,
                ast::BinOpKind::Div => BinOpKind::Div,
                ast::BinOpKind::FloorDiv => BinOpKind::FloorDiv,
                ast::BinOpKind::Rem => BinOpKind::Rem,
                ast::BinOpKind::Pow => BinOpKind::Pow,
                ast::BinOpKind::Concat => BinOpKind::Concat,
                ast::BinOpKind::In => BinOpKind::In,
            },
            left: convert_boxed(&b.left),
            right: convert_boxed(&b.right),
        },
        ast::Expr::IfExpr(i) => Expr::IfExpr {
            test_expr: convert_boxed(&i.test_expr),
            true_expr: convert_boxed(&i.true_expr),
            false_expr: i.false_expr.as_ref().map(convert_boxed),
        },
        ast::Expr::Filter(f) => Expr::Filter {
            name: f.name.to_string(),
            expr: f.expr.as_ref().map(convert_boxed),
            args: convert_all(&f.args),
        },
        ast::Expr::Test(t) => Expr::Test {
            name: t.name.to_string(),
            expr: convert_boxed(&t.expr),
            args: convert_all(&t.args),
        },
        ast::Expr::GetAttr(g) => Expr::GetAttr {
            expr: convert_boxed(&g.expr),
            name: g.name.to_string(),
        },
        ast::Expr::GetItem(g) => Expr::GetItem {
            expr: convert_boxed(&g.expr),
            subscript_expr: convert_boxed(&g.subscript_expr),
        },
        ast::Expr::Call(c) => Expr::Call {
            expr: convert_boxed(&c.expr),
            args: convert_all(&c.args),
        },
        ast::Expr::List(l) => Expr::List {
            items: convert_all(&l.items),
        },
        ast::Expr::Map(m) => Expr::Dict {
            keys: convert_all(&m.keys),
            values: convert_all(&m.values),
        },
        ast::Expr::Kwargs(k) => Expr::Kwargs {
            pairs: k
                .pairs
                .iter()
                .map(|(name, value)| (name.to_string(), convert(value)))
                .collect(),
        },
    }
}

fn parse(source: &str) -> Expr {
    let parsed = parse_expr(source);
    assert!(parsed.is_ok(), "Failed to parse expression: {:?}", source);
    convert(&parsed.unwrap())
}

fn assert_evaluates_to(source: &str, types: &PredefinedTypes) -> Type {
    let result = evaluate_type(&parse(source), types);
    assert!(result.is_ok(), "Failed to evaluate expression: {:?}", result);
    result.unwrap()
}

fn assert_fails_to(source: &str, types: &PredefinedTypes) -> Vec<String> {
    let result = evaluate_type(&parse(source), types);
    assert!(
        result.is_err(),
        "Expected evaluation to fail, but got: {:?}",
        result
    );
    result
        .err()
        .unwrap()
        .iter()
        .map(|x| x.message.clone())
        .collect::<Vec<_>>()
}

#[test]
fn test_evaluate_number() {
    let types = PredefinedTypes::default(JinjaContext::Prompt);
    assert_eq!(assert_evaluates_to("1.1 + 1", &types), Type::Number);
}

#[test]
fn test_evaluate_bool() {
    let types = PredefinedTypes::default(JinjaContext::Prompt);
    assert_eq!(assert_evaluates_to("not 1.1", &types), Type::Bool);
}

#[test]
fn test_evaluate_string() {
    let mut types = PredefinedTypes::default(JinjaContext::Prompt);
    assert_eq!(
        assert_fails_to("ok ~ 1.1", &types),
        vec!["Variable `ok` does not exist. Did you mean one of these: `_`, `ctx`?"]
    );
    types.add_variable("ok", Type::String);
    assert_eq!(assert_evaluates_to("ok ~ 1.1", &types), Type::String);
}

#[test]
fn test_evaluate_setting() {
    let mut types = PredefinedTypes::default(JinjaContext::Prompt);
    assert_eq!(
        assert_fails_to("bar.f.g", &types),
        vec!["Variable `bar` does not exist. Did you mean one of these: `_`, `ctx`?"]
    );

    types.add_class(
        "Foo",
        vec![("food".into(), Type::Float)].into_iter().collect(),
    );
    types.add_variable("bar", Type::ClassRef("Foo".into()));
    assert_eq!(
        assert_fails_to("bar.f", &types),
        vec!["class Foo (bar) does not have a property 'f'"]
    );

    types.add_class("Foo", vec![("f".into(), Type::Int)].into_iter().collect());
    assert_eq!(assert_evaluates_to("bar.f", &types), Type::Int);
}

#[test]
fn test_ifexpr() {
    let mut types = PredefinedTypes::default(JinjaContext::Prompt);
    assert_eq!(
        assert_evaluates_to("1 if true else 2", &types),
        Type::Union(vec![
            Type::Literal(LiteralValue::Int(1)),
            Type::Literal(LiteralValue::Int(2))
        ])
    );

    assert_eq!(
        assert_evaluates_to("1 if true else '2'", &types),
        Type::Union(vec![
            Type::Literal(LiteralValue::String("2".to_string())),
            Type::Literal(LiteralValue::Int(1))
        ])
    );

    assert_eq!(
        assert_evaluates_to("'1' if true else 2", &types),
        Type::Union(vec![
            Type::Literal(LiteralValue::String("1".to_string())),
            Type::Literal(LiteralValue::Int(2))
        ])
    );

    types.add_function("AnotherFunc", Type::Float, vec![("arg".into(), Type::Bool)]);

    types.add_variable("BasicTest", Type::Int);
    assert_eq!(
        assert_evaluates_to("BasicTest if true else AnotherFunc", &types),
        Type::Union(vec![Type::Int, Type::FunctionRef("AnotherFunc".into())])
    );
}

#[test]
fn test_eval() {
    let types = PredefinedTypes::default(JinjaContext::Prompt);
    assert_eq!(assert_evaluates_to("1 + 1", &types), Type::Number);
    assert_eq!(assert_evaluates_to("1 - 1", &types), Type::Number);
    assert_eq!(assert_evaluates_to("1 * 1", &types), Type::Number);
    assert_eq!(assert_evaluates_to("1 / 1", &types), Type::Number);
    assert_eq!(assert_evaluates_to("1 ** 1", &types), Type::Number);
    assert_eq!(assert_evaluates_to("1 // 1", &types), Type::Number);
    assert_eq!(assert_evaluates_to("1 % 1", &types), Type::Number);
    assert_eq!(assert_evaluates_to("1 == 1", &types), Type::Bool);
    assert_eq!(assert_evaluates_to("1 != 1", &types), Type::Bool);
    assert_eq!(assert_evaluates_to("1 < 1", &types), Type::Bool);
    assert_eq!(assert_evaluates_to("1 > 1", &types), Type::Bool);
    assert_eq!(assert_evaluates_to("1 in 1", &types), Type::Bool);
    assert_eq!(assert_evaluates_to("1 <= 1", &types), Type::Bool);
    assert_eq!(assert_evaluates_to("1 >= 1", &types), Type::Bool);
    assert_eq!(assert_evaluates_to("1 ~ 1", &types), Type::String);
}

#[test]
fn test_call_function() {
    let mut types = PredefinedTypes::default(JinjaContext::Prompt);
    types.add_function("SomeFunc", Type::Float, vec![("arg".into(), Type::Bool)]);

    assert_eq!(assert_evaluates_to("SomeFunc(true)", &types), Type::Float);
    assert_eq!(
        assert_fails_to("SomeFunc(arg=1)", &types),
        vec!["Function 'SomeFunc' expects argument 'arg' to be of type bool, but got literal[1]"]
    );

    types.add_function(
        "AnotherFunc",
        Type::Float,
        vec![("arg".into(), Type::Bool), ("arg2".into(), Type::String)],
    );
    assert_eq!(
        assert_fails_to("AnotherFunc(true)", &types),
        vec!["Function 'AnotherFunc' expects 2 arguments, but got 1"]
    );

    assert_eq!(
        assert_fails_to("AnotherFunc(arg='true', arg2='1')", &types),
        vec![
            r#"Function 'AnotherFunc' expects argument 'arg' to be of type bool, but got literal["true"]"#
        ]
    );

    assert_eq!(
        assert_fails_to("AnotherFunc(arg=SomeFunc(true) ~ 1, arg2=1)", &types),
        vec![
            "Function 'AnotherFunc' expects argument 'arg' to be of type bool, but got string",
            "Function 'AnotherFunc' expects argument 'arg2' to be of type string, but got literal[1]"
        ]
    );

    assert_eq!(
        assert_evaluates_to("AnotherFunc(true, arg2='1')", &types),
        Type::Float
    );

    types.add_function(
        "AnotherFunc",
        Type::Float,
        vec![
            ("arg".into(), Type::Bool),
            ("arg2".into(), Type::String),
            ("arg3".into(), Type::Number),
        ],
    );

    assert_eq!(
        assert_fails_to("AnotherFunc(true, arg2='1')", &types),
        vec!["Function 'AnotherFunc' expects 3 arguments, but got 2"]
    );

    assert_eq!(
        assert_fails_to("AnotherFunc(true, arg2='1')", &types),
        vec!["Function 'AnotherFunc' expects 3 arguments, but got 2",]
    );

    assert_eq!(
        assert_fails_to("AnotherFunc(true, arg2='1', arg4=1)", &types),
        vec![
            "Function 'AnotherFunc' expects argument 'arg3'",
            "Function 'AnotherFunc' does not have an argument 'arg4'. Did you mean 'arg3'?"
        ]
    );

    types.add_function(
        "TakesLiteralFoo",
        Type::Float,
        vec![(
            "arg".to_string(),
            Type::Union(vec![
                Type::Literal(LiteralValue::String("Foo".to_string())),
                Type::Literal(LiteralValue::String("Bar".to_string())),
            ]),
        )],
    );

    assert_eq!(
        assert_evaluates_to("TakesLiteralFoo('Foo')", &types),
        Type::Float
    );
}

#[test]
fn test_output_format() {
    let types = PredefinedTypes::default(JinjaContext::Prompt);
    assert_eq!(
        assert_evaluates_to("ctx.output_format(prefix='hi')", &types),
        Type::String
    );

    assert_eq!(
        assert_evaluates_to("ctx.output_format(prefix='1', or_splitter='1')", &types),
        Type::String
    );

    assert_eq!(
        assert_evaluates_to(
            "ctx.output_format(prefix='1', enum_value_prefix=none)",
            &types
        ),
        Type::String
    );

    assert_eq!(
        assert_fails_to(
            "ctx.output_format(prefix='1', always_hoist_enums=1)",
            &types
        ),
        vec!["Function 'baml::OutputFormat' expects argument 'always_hoist_enums' to be of type (none | bool), but got literal[1]"]
    );

    assert_eq!(
        assert_fails_to(
            "ctx.output_format(prefix='1', hoisted_class_prefix=1)",
            &types
        ),
        vec!["Function 'baml::OutputFormat' expects argument 'hoisted_class_prefix' to be of type (none | string), but got literal[1]"]
    );

    assert_eq!(
        assert_fails_to("ctx.output_format(prefix='1', unknown=1)", &types),
        vec!["Function 'baml::OutputFormat' does not have an argument 'unknown'. Did you mean one of these: 'always_hoist_enums', 'enum_value_prefix', 'hoisted_class_prefix', 'or_splitter', 'prefix'?"]
    );
}

#[test]
fn unknown_variable_reports_kind_and_suggestions() {
    let types = PredefinedTypes::default(JinjaContext::Prompt);
    let errors = evaluate_type(&parse("bar.f"), &types).err().unwrap();
    assert_eq!(errors.len(), 1);
    assert_eq!(
        errors[0].kind,
        ErrorKind::UnresolvedVariable {
            name: "bar".to_string(),
            suggestions: vec!["_".to_string(), "ctx".to_string()],
        }
    );
}

#[test]
fn hand_written_expression_matches_parsed() {
    let written = Expr::IfExpr {
        test_expr: Box::new(Expr::Const(Const::Bool(true))),
        true_expr: Box::new(Expr::Const(Const::Int(1))),
        false_expr: Some(Box::new(Expr::Const(Const::Int(2)))),
    };
    assert_eq!(written, parse("1 if true else 2"));
}

#[test]
fn output_format_answers_a_close_match_with_that_option() {
    let types = PredefinedTypes::default(JinjaContext::Prompt);
    assert_eq!(
        assert_fails_to("ctx.output_format(prefx='1')", &types),
        vec!["Function 'baml::OutputFormat' does not have an argument 'prefx'. Did you mean 'prefix'?"]
    );
    assert_eq!(
        assert_fails_to("ctx.output_format(prefix='1', or_spliter='|')", &types),
        vec!["Function 'baml::OutputFormat' does not have an argument 'or_spliter'. Did you mean 'or_splitter'?"]
    );
}

#[test]
fn output_format_answers_anything_else_with_every_option() {
    let types = PredefinedTypes::default(JinjaContext::Prompt);
    let errors = evaluate_type(&parse("ctx.output_format(zzzzzzzzzzzzzzzzzzzzzzzzzzzzzzzzzzzzzzzzzz=1)"), &types)
        .err()
        .unwrap();
    assert_eq!(errors.len(), 1);
    assert_eq!(
        errors[0].kind,
        ErrorKind::UnknownArg {
            function: "baml::OutputFormat".to_string(),
            argument: "zzzzzzzzzzzzzzzzzzzzzzzzzzzzzzzzzzzzzzzzzz".to_string(),
            suggestions: vec![
                "always_hoist_enums".to_string(),
                "enum_value_prefix".to_string(),
                "hoisted_class_prefix".to_string(),
                "or_splitter".to_string(),
                "prefix".to_string(),
            ],
        }
    );
}

#[test]
fn context_names_are_offered_however_far_the_name() {
    let mut types = PredefinedTypes::default(JinjaContext::Prompt);
    assert_eq!(
        assert_fails_to("a_name_of_twentyfive_chars", &types),
        vec!["Variable `a_name_of_twentyfive_chars` does not exist. Did you mean one of these: `_`, `ctx`?"]
    );
    types.add_variable("user", Type::String);
    types.add_variable("used", Type::String);
    types.add_variable("uses", Type::String);
    types.add_variable("zzzz", Type::String);
    assert_eq!(
        assert_fails_to("usex", &types),
        vec!["Variable `usex` does not exist. Did you mean one of these: `_`, `ctx`, `used`, `user`, `uses`?"]
    );
}

#[test]
fn other_contexts_bind_no_names() {
    let mut types = PredefinedTypes::default(JinjaContext::Parsing);
    assert_eq!(assert_fails_to("x", &types), vec!["Variable `x` does not exist."]);
    types.add_variable("y", Type::Int);
    assert_eq!(assert_fails_to("x", &types), vec!["Variable `x` does not exist. Did you mean `y`?"]);
}

#[test]
fn validation_checks_parsed_prompt_expressions() {
    let span = Span { file: 0, start: 0, end: 1 };
    let db = ParserDatabase {
        enums: vec![],
        classes: vec![],
        functions: vec![FunctionDecl {
            name: "f".to_string(),
            span,
            input: Some(vec![]),
            output: Some(baml_ir::ast::FieldType::Primitive(
                baml_ir::ast::FieldArity::Required,
                baml_ir::types::TypeValue::String,
                span,
                vec![],
            )),
            prompt: String::new(),
            prompt_expressions: vec![
                parse("ctx.output_format(prefix='1', unknown=1)"),
                parse("1 + 1"),
                parse("bar.f"),
            ],
            client: Some(baml_ir::ast::ClientSpec::Named("c".to_string())),
        }],
        clients: vec![],
        retry_policies: vec![],
        template_strings: vec![],
        tests: vec![],
    };
    let mut ctx = Context { db: &db, diagnostics: Diagnostics::new() };
    validate(&mut ctx);
    assert!(ctx.diagnostics.errors.is_empty());
    let found: Vec<(usize, Vec<String>)> = ctx
        .diagnostics
        .prompt_errors
        .iter()
        .map(|f| (f.expression, f.errors.iter().map(|e| e.message.clone()).collect()))
        .collect();
    assert_eq!(
        found,
        vec![
            (
                0,
                vec!["Function 'baml::OutputFormat' does not have an argument 'unknown'. Did you mean one of these: 'always_hoist_enums', 'enum_value_prefix', 'hoisted_class_prefix', 'or_splitter', 'prefix'?".to_string()]
            ),
            (
                2,
                vec!["Variable `bar` does not exist. Did you mean one of these: `_`, `ctx`?".to_string()]
            ),
        ]
    );
}
