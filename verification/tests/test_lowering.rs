use baml_ir::ast;
use baml_ir::ast::FieldArity;
use baml_ir::ast::ParserDatabase;
use baml_ir::ast::Span;
use baml_ir::expression::Expression;
use baml_ir::expression::Identifier;
use baml_ir::lowering::extract_constraints;
use baml_ir::lowering::field_type_attributes;
use baml_ir::lowering::lower_type;
use baml_ir::lowering::LoweringError;
use baml_ir::lowering::LoweringErrorKind;
use baml_ir::metadata::lower_expression;
use baml_ir::metadata::to_ir_attributes;
use baml_ir::metadata::declared_attributes;
use baml_ir::types::BamlMediaType;
use baml_ir::types::Constraint;
use baml_ir::types::ConstraintLevel;
use baml_ir::types::FieldType;
use baml_ir::types::JinjaExpression;
use baml_ir::types::LiteralValue;
use baml_ir::types::TypeValue;

fn span(start: usize) -> Span {
    Span { file: 0, start, end: start + 1 }
}

fn empty_db() -> ParserDatabase {
    ParserDatabase {
        enums: vec![],
        classes: vec![],
        functions: vec![],
        clients: vec![],
        retry_policies: vec![],
        template_strings: vec![],
        tests: vec![],
    }
}

fn class(name: &str, fields: Vec<ast::FieldDecl>) -> ast::ClassDecl {
    ast::ClassDecl { name: name.to_string(), span: span(0), attributes: None, fields, input: None }
}

fn enumeration(name: &str) -> ast::EnumDecl {
    ast::EnumDecl { name: name.to_string(), span: span(0), attributes: None, values: vec![] }
}

fn prim(arity: FieldArity, t: TypeValue) -> ast::FieldType {
    ast::FieldType::Primitive(arity, t, span(1), vec![])
}

fn sym(arity: FieldArity, name: &str) -> ast::FieldType {
    ast::FieldType::Symbol(arity, name.to_string(), span(2), vec![])
}

fn check_constraint(label: Option<&str>, text: &str) -> Constraint {
    Constraint {
        level: ConstraintLevel::Check,
        expression: JinjaExpression(text.to_string()),
        label: label.map(|l| l.to_string()),
    }
}

fn jinja(text: &str) -> ast::Expression {
    ast::Expression::JinjaExpressionValue(JinjaExpression(text.to_string()), span(3))
}

fn attribute(name: &str, values: Vec<ast::Expression>) -> ast::Attribute {
    ast::Attribute {
        name: name.to_string(),
        arguments: values.into_iter().map(|value| ast::Argument { value, span: span(4) }).collect(),
        span: span(4),
    }
}

fn optional(t: FieldType) -> FieldType {
    FieldType::Optional(Box::new(t))
}

fn list(t: FieldType) -> FieldType {
    FieldType::List(Box::new(t))
}

#[test]
fn primitive_lowers_directly() {
    let db = empty_db();
    assert_eq!(
        lower_type(&prim(FieldArity::Required, TypeValue::Int), &db),
        Ok(FieldType::Primitive(TypeValue::Int))
    );
    assert_eq!(
        lower_type(&prim(FieldArity::Optional, TypeValue::Media(BamlMediaType::Image)), &db),
        Ok(optional(FieldType::Primitive(TypeValue::Media(BamlMediaType::Image))))
    );
}

#[test]
fn literal_lowers_directly() {
    let db = empty_db();
    let t = ast::FieldType::Literal(
        FieldArity::Optional,
        LiteralValue::String("a".to_string()),
        span(1),
        vec![],
    );
    assert_eq!(
        lower_type(&t, &db),
        Ok(optional(FieldType::Literal(LiteralValue::String("a".to_string()))))
    );
}

#[test]
fn symbol_resolves_to_class_or_enum() {
    let mut db = empty_db();
    db.classes.push(class("Person", vec![]));
    db.enums.push(enumeration("Color"));
    assert_eq!(
        lower_type(&sym(FieldArity::Required, "Person"), &db),
        Ok(FieldType::Class("Person".to_string()))
    );
    assert_eq!(
        lower_type(&sym(FieldArity::Optional, "Color"), &db),
        Ok(optional(FieldType::Enum("Color".to_string())))
    );
}

#[test]
fn class_comes_before_enum_of_the_same_name() {
    let mut db = empty_db();
    db.enums.push(enumeration("Thing"));
    db.classes.push(class("Thing", vec![]));
    assert_eq!(
        lower_type(&sym(FieldArity::Required, "Thing"), &db),
        Ok(FieldType::Class("Thing".to_string()))
    );
}

#[test]
fn unresolvable_symbol_is_an_error_at_its_span() {
    let db = empty_db();
    let e = lower_type(&sym(FieldArity::Required, "Nowhere"), &db).err().unwrap();
    assert_eq!(e, LoweringError { kind: LoweringErrorKind::UnresolvableIdentifier, span: span(2) });
    assert_eq!(e.message(), "Field type uses unresolvable local identifier");
}

#[test]
fn symbol_carries_the_constraints_of_its_declaration() {
    let mut db = empty_db();
    let mut person = class("Person", vec![]);
    person.attributes = Some(ast::Attributes {
        description: None,
        alias: None,
        dynamic_type: None,
        skip: None,
        constraints: vec![check_constraint(Some("adult"), "this.age >= 18")],
    });
    db.classes.push(person);
    assert_eq!(
        lower_type(&sym(FieldArity::Optional, "Person"), &db),
        Ok(optional(FieldType::Constrained {
            base: Box::new(FieldType::Class("Person".to_string())),
            constraints: vec![check_constraint(Some("adult"), "this.age >= 18")],
        }))
    );
}

#[test]
fn list_dimensions_nest() {
    let db = empty_db();
    let elem = prim(FieldArity::Required, TypeValue::String);
    let one = ast::FieldType::List(FieldArity::Required, Box::new(prim(FieldArity::Required, TypeValue::String)), 1, span(5), vec![]);
    let two = ast::FieldType::List(FieldArity::Optional, Box::new(prim(FieldArity::Required, TypeValue::String)), 2, span(5), vec![]);
    let zero = ast::FieldType::List(FieldArity::Required, Box::new(elem), 0, span(5), vec![]);
    let s = FieldType::Primitive(TypeValue::String);
    assert_eq!(lower_type(&one, &db), Ok(list(s.clone())));
    assert_eq!(lower_type(&two, &db), Ok(optional(list(list(s.clone())))));
    assert_eq!(lower_type(&zero, &db), Ok(s));
}

#[test]
fn map_lowers_key_and_value() {
    let db = empty_db();
    let t = ast::FieldType::Mapping(
        FieldArity::Optional,
        Box::new((prim(FieldArity::Required, TypeValue::String), prim(FieldArity::Optional, TypeValue::Int))),
        span(6),
        vec![],
    );
    assert_eq!(
        lower_type(&t, &db),
        Ok(optional(FieldType::Mapping(
            Box::new(FieldType::Primitive(TypeValue::String)),
            Box::new(optional(FieldType::Primitive(TypeValue::Int))),
        )))
    );
}

#[test]
fn optional_union_gets_a_null_member() {
    let db = empty_db();
    let members = || vec![prim(FieldArity::Required, TypeValue::Int), prim(FieldArity::Required, TypeValue::String)];
    let required = ast::FieldType::Union(FieldArity::Required, members(), span(7), vec![]);
    let opt = ast::FieldType::Union(FieldArity::Optional, members(), span(7), vec![]);
    assert_eq!(
        lower_type(&required, &db),
        Ok(FieldType::Union(vec![
            FieldType::Primitive(TypeValue::Int),
            FieldType::Primitive(TypeValue::String),
        ]))
    );
    assert_eq!(
        lower_type(&opt, &db),
        Ok(FieldType::Union(vec![
            FieldType::Primitive(TypeValue::Int),
            FieldType::Primitive(TypeValue::String),
            FieldType::Primitive(TypeValue::Null),
        ]))
    );
}

#[test]
fn tuple_arity_applies_to_the_whole() {
    let db = empty_db();
    let t = ast::FieldType::Tuple(
        FieldArity::Optional,
        vec![prim(FieldArity::Required, TypeValue::Int), prim(FieldArity::Required, TypeValue::Bool)],
        span(8),
        vec![],
    );
    assert_eq!(
        lower_type(&t, &db),
        Ok(optional(FieldType::Tuple(vec![
            FieldType::Primitive(TypeValue::Int),
            FieldType::Primitive(TypeValue::Bool),
        ])))
    );
}

#[test]
fn first_failing_member_fails_the_union() {
    let db = empty_db();
    let first = ast::FieldType::Symbol(FieldArity::Required, "A".to_string(), span(10), vec![]);
    let second = ast::FieldType::Symbol(FieldArity::Required, "B".to_string(), span(11), vec![]);
    let t = ast::FieldType::Union(FieldArity::Required, vec![prim(FieldArity::Required, TypeValue::Int), first, second], span(7), vec![]);
    assert_eq!(
        lower_type(&t, &db),
        Err(LoweringError { kind: LoweringErrorKind::UnresolvableIdentifier, span: span(10) })
    );
}

#[test]
fn own_constraints_wrap_the_outermost_type() {
    let db = empty_db();
    let t = ast::FieldType::Primitive(
        FieldArity::Optional,
        TypeValue::Int,
        span(1),
        vec![attribute("check", vec![jinja("this > 0")])],
    );
    assert_eq!(
        lower_type(&t, &db),
        Ok(FieldType::Constrained {
            base: Box::new(optional(FieldType::Primitive(TypeValue::Int))),
            constraints: vec![check_constraint(None, "this > 0")],
        })
    );
}

#[test]
fn optional_is_optional_of_required() {
    let mut db = empty_db();
    db.classes.push(class("Person", vec![]));
    let cases = vec![
        prim(FieldArity::Required, TypeValue::Float),
        sym(FieldArity::Required, "Person"),
        sym(FieldArity::Required, "Missing"),
        ast::FieldType::List(FieldArity::Required, Box::new(sym(FieldArity::Required, "Person")), 2, span(5), vec![]),
        ast::FieldType::Tuple(FieldArity::Required, vec![prim(FieldArity::Required, TypeValue::Int)], span(8), vec![]),
    ];
    for required in cases {
        let opt = match &required {
            ast::FieldType::Primitive(_, t, s, _) => ast::FieldType::Primitive(FieldArity::Optional, *t, *s, vec![]),
            ast::FieldType::Symbol(_, n, s, _) => ast::FieldType::Symbol(FieldArity::Optional, n.clone(), *s, vec![]),
            ast::FieldType::List(_, _, d, s, _) => ast::FieldType::List(FieldArity::Optional, Box::new(sym(FieldArity::Required, "Person")), *d, *s, vec![]),
            ast::FieldType::Tuple(_, _, s, _) => ast::FieldType::Tuple(FieldArity::Optional, vec![prim(FieldArity::Required, TypeValue::Int)], *s, vec![]),
            _ => unreachable!(),
        };
        assert_eq!(lower_type(&opt, &db), lower_type(&required, &db).map(optional));
    }
}

#[test]
fn constraints_come_from_two_shapes_only() {
    let local = |name: &str| ast::Expression::Identifier(ast::Identifier::Local(name.to_string(), span(9)));
    let attrs = vec![
        attribute("assert", vec![jinja("this != 0")]),
        attribute("check", vec![local("small"), jinja("this < 10")]),
        attribute("alias", vec![jinja("ignored")]),
        attribute("check", vec![]),
        attribute("check", vec![jinja("a"), jinja("b")]),
        attribute("assert", vec![local("x"), jinja("y"), jinja("z")]),
        attribute("check", vec![ast::Expression::StringValue("text".to_string(), span(9))]),
    ];
    assert_eq!(
        extract_constraints(&attrs),
        vec![
            Constraint {
                level: ConstraintLevel::Assert,
                expression: JinjaExpression("this != 0".to_string()),
                label: None,
            },
            check_constraint(Some("small"), "this < 10"),
        ]
    );
}

#[test]
fn field_type_attributes_hold_constraints_and_span() {
    let t = ast::FieldType::Primitive(
        FieldArity::Required,
        TypeValue::Int,
        span(1),
        vec![attribute("check", vec![jinja("this > 0")])],
    );
    let attributes = field_type_attributes(&t);
    assert_eq!(attributes.constraints, vec![check_constraint(None, "this > 0")]);
    assert_eq!(attributes.span, Some(span(1)));
    assert_eq!(attributes.get("description"), None);
}

#[test]
fn attributes_normalize_into_metadata() {
    let attributes = Some(ast::Attributes {
        description: Some(ast::Expression::StringValue("a person".to_string(), span(1))),
        alias: Some("human".to_string()),
        dynamic_type: Some(true),
        skip: Some(false),
        constraints: vec![check_constraint(None, "true")],
    });
    let (meta, constraints) = to_ir_attributes(&attributes);
    assert_eq!(
        meta.iter().map(|(k, v)| (k.as_str(), v)).collect::<Vec<_>>(),
        vec![
            ("description", &Expression::String("a person".to_string())),
            ("alias", &Expression::String("human".to_string())),
            ("dynamic_type", &Expression::Bool(true)),
        ]
    );
    assert_eq!(constraints, vec![check_constraint(None, "true")]);

    let node = declared_attributes(&attributes, span(3));
    assert_eq!(node.get("alias"), Some(&Expression::String("human".to_string())));
    assert_eq!(node.get("skip"), None);
    assert_eq!(node.span, Some(span(3)));
}

#[test]
fn description_keeps_its_kind_and_drops_other_shapes() {
    let with = |description: ast::Expression| {
        to_ir_attributes(&Some(ast::Attributes {
            description: Some(description),
            alias: None,
            dynamic_type: None,
            skip: Some(true),
            constraints: vec![],
        }))
        .0
    };
    let raw = with(ast::Expression::RawStringValue(ast::RawString { value: "raw".to_string(), span: span(1) }));
    assert_eq!(raw.get("description"), Some(&Expression::RawString("raw".to_string())));
    assert_eq!(raw.get("skip"), Some(&Expression::Bool(true)));
    let template = with(jinja("{{ x }}"));
    assert_eq!(
        template.get("description"),
        Some(&Expression::JinjaExpression(JinjaExpression("{{ x }}".to_string())))
    );
    let number = with(ast::Expression::NumericValue("1".to_string(), span(1)));
    assert_eq!(number.get("description"), None);
    assert_eq!(number.len(), 1);
}

#[test]
fn no_attributes_give_empty_metadata() {
    let (meta, constraints) = to_ir_attributes(&None);
    assert!(meta.is_empty());
    assert!(constraints.is_empty());
}

#[test]
fn expressions_lower_by_kind() {
    let env = ast::Expression::Identifier(ast::Identifier::ENV("KEY".to_string(), span(1)));
    let text = ast::Expression::Identifier(ast::Identifier::String("gpt-4".to_string(), span(1)));
    let reference = ast::Expression::Identifier(ast::Identifier::Ref(
        ast::RefIdentifier {
            path: vec!["a".to_string()],
            name: "b".to_string(),
            full_name: "a.b".to_string(),
        },
        span(1),
    ));
    let array = ast::Expression::Array(
        vec![env, text, reference, ast::Expression::NumericValue("1.5".to_string(), span(2))],
        span(3),
    );
    let map = ast::Expression::Mapping(
        vec![(ast::Expression::StringValue("k".to_string(), span(1)), array)],
        span(4),
    );
    assert_eq!(
        lower_expression(&map),
        Ok(Expression::Mapping(vec![(
            Expression::String("k".to_string()),
            Expression::List(vec![
                Expression::Identifier(Identifier::ENV("KEY".to_string())),
                Expression::String("gpt-4".to_string()),
                Expression::String("a.b".to_string()),
                Expression::Numeric("1.5".to_string()),
            ]),
        )]))
    );
}

#[test]
fn invalid_identifier_fails_expression_lowering() {
    let bad = ast::Expression::Identifier(ast::Identifier::Invalid("?".to_string(), span(42)));
    let array = ast::Expression::Array(vec![ast::Expression::BoolValue(true, span(1)), bad], span(2));
    let e = lower_expression(&array).err().unwrap();
    assert_eq!(e, LoweringError { kind: LoweringErrorKind::InvalidIdentifier, span: span(42) });
    assert_eq!(e.message(), "Cannot represent an invalid parser-AST identifier");
}

#[test]
fn identifier_names() {
    assert_eq!(Identifier::ENV("HOME".to_string()).name(), "HOME");
    assert_eq!(Identifier::Local("x".to_string()).name(), "x");
    assert_eq!(Identifier::Ref(vec!["a".to_string(), "b".to_string(), "c".to_string()]).name(), "a.b.c");
    assert_eq!(Identifier::Ref(vec![]).name(), "");
    assert_eq!(Identifier::Primitive(TypeValue::Float).name(), "float");
    assert_eq!(Identifier::Primitive(TypeValue::Media(BamlMediaType::Audio)).name(), "audio");
}

#[test]
fn env_vars_are_found_in_nested_expressions() {
    let env = |name: &str| Expression::Identifier(Identifier::ENV(name.to_string()));
    let e = Expression::Mapping(vec![
        (env("A"), Expression::List(vec![Expression::Bool(true), Expression::List(vec![env("B")])])),
        (Expression::String("k".to_string()), env("A")),
        (Expression::Identifier(Identifier::Local("C".to_string())), Expression::Numeric("1".to_string())),
    ]);
    assert_eq!(e.required_env_vars(), vec!["A".to_string(), "B".to_string(), "A".to_string()]);
    assert!(Expression::String("env.A".to_string()).required_env_vars().is_empty());
}

#[test]
fn find_type_reports_the_first_declaration() {
    let mut db = empty_db();
    db.classes.push(class("A", vec![]));
    db.classes.push(class("B", vec![]));
    db.classes.push(class("A", vec![]));
    db.enums.push(enumeration("E"));
    assert_eq!(db.find_type(&"A".to_string()), Some(ast::TypeRef::Class(0)));
    assert_eq!(db.find_type(&"B".to_string()), Some(ast::TypeRef::Class(1)));
    assert_eq!(db.find_type(&"E".to_string()), Some(ast::TypeRef::Enum(0)));
    assert_eq!(db.find_type(&"F".to_string()), None);
}
