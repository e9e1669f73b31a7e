use baml_ir::evaluate_type::errors::ErrorKind;
use baml_ir::evaluate_type::errors::TypeError;
use baml_ir::evaluate_type::expr::evaluate_type;
use baml_ir::evaluate_type::expr::render;
use baml_ir::evaluate_type::expr::BinOpKind;
use baml_ir::evaluate_type::expr::Const;
use baml_ir::evaluate_type::expr::Expr;
use baml_ir::evaluate_type::registry::PredefinedTypes;
use baml_ir::evaluate_type::suggest::capped_distance;
use baml_ir::evaluate_type::suggest::sort_by_match;
use baml_ir::evaluate_type::suggest::suggest;
use baml_ir::evaluate_type::types::Type;
use baml_ir::evaluate_type::JinjaContext;
use baml_ir::text::chars_lt;
use baml_ir::text::chars_of;
use baml_ir::text::decimal;
use baml_ir::text::eq_str;
use baml_ir::text::join;
use baml_ir::text::signed_decimal;
use baml_ir::text::str_lt;
use baml_ir::types::LiteralValue;
use baml_ir::types::TypeValue;

fn strings(v: &[&str]) -> Vec<String> {
    v.iter().map(|s| s.to_string()).collect()
}

fn distance(a: &str, b: &str) -> usize {
    capped_distance(&a.chars().collect(), &b.chars().collect())
}

fn lit_int(i: i64) -> Type {
    Type::Literal(LiteralValue::Int(i))
}

fn lit_str(s: &str) -> Type {
    Type::Literal(LiteralValue::String(s.to_string()))
}

fn var(name: &str) -> Expr {
    Expr::Var(name.to_string())
}

fn call(name: &str, args: Vec<Expr>) -> Expr {
    Expr::Call { expr: Box::new(var(name)), args }
}

fn kwargs(pairs: Vec<(&str, Expr)>) -> Expr {
    Expr::Kwargs { pairs: pairs.into_iter().map(|(k, v)| (k.to_string(), v)).collect() }
}

fn messages(e: &Expr, types: &PredefinedTypes) -> Vec<String> {
    match evaluate_type(e, types) {
        Ok(_) => vec![],
        Err(errors) => errors.into_iter().map(|e| e.message).collect(),
    }
}

#[test]
fn decimal_notation() {
    assert_eq!(decimal(0), "0");
    assert_eq!(decimal(7), "7");
    assert_eq!(decimal(10), "10");
    assert_eq!(decimal(1234567890), "1234567890");
    assert_eq!(decimal(u64::MAX), "18446744073709551615");
    assert_eq!(signed_decimal(0), "0");
    assert_eq!(signed_decimal(-1), "-1");
    assert_eq!(signed_decimal(42), "42");
    assert_eq!(signed_decimal(i64::MIN), "-9223372036854775808");
    assert_eq!(signed_decimal(i64::MAX), "9223372036854775807");
}

#[test]
fn joining_strings() {
    assert_eq!(join(&strings(&[]), ", "), "");
    assert_eq!(join(&strings(&["a"]), ", "), "a");
    assert_eq!(join(&strings(&["a", "b", "c"]), ", "), "a, b, c");
    assert_eq!(join(&strings(&["", ""]), "-"), "-");
}

#[test]
fn string_order_is_the_order_of_the_standard_library() {
    let words = ["", "a", "A", "ab", "abc", "b", "B", "é", "z", "_", "ctx", "aa", "a b"];
    for x in words {
        for y in words {
            assert_eq!(str_lt(x, y), x < y, "{:?} < {:?}", x, y);
            assert_eq!(chars_lt(&chars_of(x), &chars_of(y)), x < y);
            assert_eq!(eq_str(&x.to_string(), y), x == y);
        }
    }
    assert_eq!(chars_of("héllo"), vec!['h', 'é', 'l', 'l', 'o']);
}

#[test]
fn edit_distances() {
    assert_eq!(distance("", ""), 0);
    assert_eq!(distance("abc", ""), 3);
    assert_eq!(distance("", "abcd"), 4);
    assert_eq!(distance("kitten", "sitting"), 3);
    assert_eq!(distance("flaw", "lawn"), 2);
    assert_eq!(distance("arg4", "arg3"), 1);
    assert_eq!(distance("same", "same"), 0);
    assert_eq!(distance("or_splitter", "unknown"), 11);
    assert_eq!(distance("enum_value_prefix", "unknown"), 16);
    assert_eq!(distance("hoisted_class_prefix", "unknown"), 20);
    assert_eq!(distance("aaaaaaaaaaaaaaaaaaaaa", ""), 21);
    assert_eq!(distance("aaaaaaaaaaaaaaaaaaaaaaaaaaaaaa", "b"), 21);
}

#[test]
fn candidates_rank_by_distance_then_given_order() {
    let candidates = strings(&["zzzz", "arg3", "arg", "brg4", "arg4x", "a-very-long-name-that-is-too-far-away"]);
    assert_eq!(
        sort_by_match("arg4", &candidates, 10),
        strings(&["arg3", "arg", "brg4", "arg4x", "zzzz"])
    );
    assert_eq!(sort_by_match("arg4", &candidates, 2), strings(&["arg3", "arg"]));
    assert_eq!(sort_by_match("arg4", &candidates, 0), strings(&[]));
    assert_eq!(suggest("arg4", &candidates), strings(&["arg", "arg3", "brg4"]));
    assert_eq!(suggest("arg4", &strings(&[])), strings(&[]));
    assert_eq!(suggest("x", &strings(&["b", "a"])), strings(&["a", "b"]));
}

#[test]
fn suggestions_are_the_same_every_time() {
    let candidates = strings(&["b1", "a1", "c1", "d1"]);
    let first = suggest("x1", &candidates);
    assert_eq!(first, strings(&["a1", "b1", "c1"]));
    for _ in 0..5 {
        assert_eq!(suggest("x1", &candidates), first);
    }
}

#[test]
fn type_names() {
    assert_eq!(Type::Unknown.name(), "<unknown>");
    assert_eq!(Type::NoneType.name(), "none");
    assert_eq!(Type::Int.name(), "int");
    assert_eq!(Type::Float.name(), "float");
    assert_eq!(Type::Number.name(), "number");
    assert_eq!(Type::String.name(), "string");
    assert_eq!(Type::Bool.name(), "bool");
    assert_eq!(lit_int(-3).name(), "literal[-3]");
    assert_eq!(lit_str("a").name(), "literal[\"a\"]");
    assert_eq!(Type::Literal(LiteralValue::Bool(true)).name(), "literal[true]");
    assert_eq!(Type::Literal(LiteralValue::Bool(false)).name(), "literal[false]");
    assert_eq!(Type::Optional(Box::new(Type::Int)).name(), "optional[int]");
    assert_eq!(Type::List(Box::new(Type::String)).name(), "list[string]");
    assert_eq!(Type::Union(vec![Type::NoneType, Type::Bool]).name(), "(none | bool)");
    assert_eq!(Type::Union(vec![]).name(), "()");
    assert_eq!(Type::ClassRef("Foo".to_string()).name(), "class Foo");
    assert_eq!(Type::FunctionRef("f".to_string()).name(), "function f");
}

#[test]
fn merge_is_canonical() {
    assert_eq!(Type::merge(vec![Type::Int]), Type::Int);
    assert_eq!(Type::merge(vec![Type::Int, Type::Int]), Type::Int);
    assert_eq!(Type::merge(vec![]), Type::Union(vec![]));
    assert_eq!(
        Type::merge(vec![Type::String, Type::NoneType]),
        Type::Union(vec![Type::NoneType, Type::String])
    );
    assert_eq!(
        Type::merge(vec![
            Type::FunctionRef("f".to_string()),
            lit_int(2),
            Type::Union(vec![Type::Bool, lit_str("b"), lit_int(2)]),
            Type::ClassRef("C".to_string()),
            lit_str("a"),
            Type::Literal(LiteralValue::Bool(true)),
            Type::Literal(LiteralValue::Bool(false)),
            lit_int(-1),
            Type::List(Box::new(Type::Int)),
            Type::Unknown,
        ]),
        Type::Union(vec![
            Type::Unknown,
            Type::Bool,
            lit_str("a"),
            lit_str("b"),
            lit_int(-1),
            lit_int(2),
            Type::Literal(LiteralValue::Bool(false)),
            Type::Literal(LiteralValue::Bool(true)),
            Type::List(Box::new(Type::Int)),
            Type::ClassRef("C".to_string()),
            Type::FunctionRef("f".to_string()),
        ])
    );
    let a = Type::merge(vec![lit_int(1), lit_str("2")]);
    let b = Type::merge(vec![lit_str("2"), lit_int(1)]);
    assert_eq!(a, b);
    assert_eq!(Type::merge(vec![a.clone(), b]), a);
}

#[test]
fn order_of_types() {
    let ascending = vec![
        Type::Unknown,
        Type::NoneType,
        Type::Int,
        Type::Float,
        Type::Number,
        Type::String,
        Type::Bool,
        lit_str(""),
        lit_str("a"),
        lit_int(i64::MIN),
        lit_int(0),
        Type::Literal(LiteralValue::Bool(false)),
        Type::Literal(LiteralValue::Bool(true)),
        Type::Optional(Box::new(Type::Int)),
        Type::Optional(Box::new(Type::Float)),
        Type::List(Box::new(Type::Unknown)),
        Type::Union(vec![]),
        Type::Union(vec![Type::Int]),
        Type::Union(vec![Type::Int, Type::Float]),
        Type::Union(vec![Type::Float]),
        Type::ClassRef("A".to_string()),
        Type::ClassRef("B".to_string()),
        Type::FunctionRef("A".to_string()),
    ];
    for (i, x) in ascending.iter().enumerate() {
        for (j, y) in ascending.iter().enumerate() {
            assert_eq!(x.precedes(y), i < j, "{:?} before {:?}", x, y);
            assert_eq!(x.same(y), i == j);
        }
    }
}

#[test]
fn subtyping() {
    let union = Type::Union(vec![Type::NoneType, Type::String]);
    assert!(Type::Unknown.is_subtype_of(&Type::Int));
    assert!(Type::Int.is_subtype_of(&Type::Unknown));
    assert!(Type::Int.is_subtype_of(&Type::Int));
    assert!(Type::Int.is_subtype_of(&Type::Number));
    assert!(Type::Float.is_subtype_of(&Type::Number));
    assert!(!Type::Number.is_subtype_of(&Type::Int));
    assert!(lit_int(1).is_subtype_of(&Type::Int));
    assert!(lit_int(1).is_subtype_of(&Type::Number));
    assert!(!lit_int(1).is_subtype_of(&Type::Float));
    assert!(!lit_int(1).is_subtype_of(&lit_int(2)));
    assert!(lit_str("a").is_subtype_of(&Type::String));
    assert!(!lit_str("a").is_subtype_of(&Type::Bool));
    assert!(Type::Literal(LiteralValue::Bool(true)).is_subtype_of(&Type::Bool));
    assert!(Type::NoneType.is_subtype_of(&union));
    assert!(lit_str("a").is_subtype_of(&union));
    assert!(!Type::Int.is_subtype_of(&union));
    assert!(union.is_subtype_of(&Type::Optional(Box::new(Type::String))));
    assert!(!union.is_subtype_of(&Type::String));
    assert!(Type::Optional(Box::new(lit_str("a"))).is_subtype_of(&union));
    assert!(!Type::Optional(Box::new(Type::Int)).is_subtype_of(&Type::Int));
    assert!(Type::NoneType.is_subtype_of(&Type::Optional(Box::new(Type::Int))));
    assert!(Type::List(Box::new(lit_int(1))).is_subtype_of(&Type::List(Box::new(Type::Number))));
    assert!(!Type::List(Box::new(Type::String)).is_subtype_of(&Type::List(Box::new(Type::Number))));
    assert!(!Type::ClassRef("A".to_string()).is_subtype_of(&Type::ClassRef("B".to_string())));
    assert!(union.is_optional());
    assert!(!Type::String.is_optional());
}

#[test]
fn type_value_names() {
    assert_eq!(TypeValue::String.name(), "string");
    assert_eq!(TypeValue::Int.name(), "int");
    assert_eq!(TypeValue::Bool.name(), "bool");
    assert_eq!(TypeValue::Null.name(), "null");
}

#[test]
fn registry_lookups() {
    let mut types = PredefinedTypes::default(JinjaContext::Prompt);
    assert_eq!(types.variable_names(), strings(&["ctx", "_"]));
    assert_eq!(types.resolve("ctx"), Some(Type::ClassRef("baml::Context".to_string())));
    assert_eq!(types.resolve("baml::Chat"), Some(Type::FunctionRef("baml::Chat".to_string())));
    assert_eq!(types.resolve("nothing"), None);
    types.add_variable("x", Type::Int);
    types.add_variable("ctx", Type::Bool);
    types.add_variable("x", Type::String);
    assert_eq!(types.variable_names(), strings(&["ctx", "_", "x"]));
    assert_eq!(types.resolve("ctx"), Some(Type::Bool));
    assert_eq!(types.resolve("x"), Some(Type::String));
    assert_eq!(types.class_fields("baml::Client").map(|f| f.len()), Some(2));
    assert!(types.class_fields("Foo").is_none());
    assert_eq!(types.signature("baml::OutputFormat").map(|s| s.params.len()), Some(5));
    let empty = PredefinedTypes::default(JinjaContext::Parsing);
    assert!(empty.variable_names().is_empty());
    assert_eq!(empty.resolve("ctx"), None);
}

#[test]
fn diagnostics_render_their_kind() {
    let e = TypeError::new(ErrorKind::UnresolvedVariable { name: "x".to_string(), suggestions: vec![] });
    assert_eq!(e.message, "Variable `x` does not exist.");
    let e = TypeError::new(ErrorKind::UnresolvedVariable { name: "x".to_string(), suggestions: strings(&["y"]) });
    assert_eq!(e.message, "Variable `x` does not exist. Did you mean `y`?");
    let e = TypeError::new(ErrorKind::UnknownArg {
        function: "f".to_string(),
        argument: "a".to_string(),
        suggestions: vec![],
    });
    assert_eq!(e.message, "Function 'f' does not have an argument 'a'.");
    let e = TypeError::new(ErrorKind::ClassNotDefined { class: "C".to_string() });
    assert_eq!(e.message, "Class 'C' is not defined");
    let e = TypeError::new(ErrorKind::FunctionNotDefined { function: "f".to_string() });
    assert_eq!(e.message, "Function 'f' is not defined");
    let e = TypeError::new(ErrorKind::InvalidType {
        expression: "a.b".to_string(),
        got: Type::Int,
        expected: "class".to_string(),
    });
    assert_eq!(e.message, "'a.b' is int, expected class");
    let e = TypeError::new(ErrorKind::WrongArgCount { function: "f".to_string(), expected: 12, got: 0 });
    assert_eq!(e.message, "Function 'f' expects 12 arguments, but got 0");
}

#[test]
fn every_part_of_an_expression_is_checked() {
    let types = PredefinedTypes::default(JinjaContext::Prompt);
    let e = Expr::BinOp {
        op: BinOpKind::Add,
        left: Box::new(var("ctxx")),
        right: Box::new(Expr::List { items: vec![var("b"), Expr::Const(Const::Int(1)), var("c")] }),
    };
    assert_eq!(
        messages(&e, &types),
        vec![
            "Variable `ctxx` does not exist. Did you mean one of these: `_`, `ctx`?",
            "Variable `b` does not exist. Did you mean one of these: `_`, `ctx`?",
            "Variable `c` does not exist. Did you mean one of these: `_`, `ctx`?",
        ]
    );
    let dead_branch = Expr::IfExpr {
        test_expr: Box::new(Expr::Const(Const::Bool(true))),
        true_expr: Box::new(Expr::Const(Const::Int(1))),
        false_expr: Some(Box::new(var("missing"))),
    };
    assert_eq!(messages(&dead_branch, &types).len(), 1);
}

#[test]
fn conditional_without_else_may_be_none() {
    let types = PredefinedTypes::default(JinjaContext::Prompt);
    let e = Expr::IfExpr {
        test_expr: Box::new(Expr::Const(Const::Bool(true))),
        true_expr: Box::new(Expr::Const(Const::String("a".to_string()))),
        false_expr: None,
    };
    assert_eq!(evaluate_type(&e, &types), Ok(Type::Union(vec![Type::NoneType, lit_str("a")])));
}

#[test]
fn lists_and_other_expressions() {
    let types = PredefinedTypes::default(JinjaContext::Prompt);
    let list = Expr::List { items: vec![Expr::Const(Const::Int(1)), Expr::Const(Const::Int(1))] };
    assert_eq!(evaluate_type(&list, &types), Ok(Type::List(Box::new(lit_int(1)))));
    let either = Expr::BinOp {
        op: BinOpKind::ScOr,
        left: Box::new(Expr::Const(Const::NoneValue)),
        right: Box::new(Expr::Const(Const::Float("1.5".to_string()))),
    };
    assert_eq!(evaluate_type(&either, &types), Ok(Type::Union(vec![Type::NoneType, Type::Float])));
    let item = Expr::GetItem { expr: Box::new(var("ctx")), subscript_expr: Box::new(Expr::Const(Const::Int(0))) };
    assert_eq!(evaluate_type(&item, &types), Ok(Type::Unknown));
    let test = Expr::Test { name: "defined".to_string(), expr: Box::new(var("ctx")), args: vec![] };
    assert_eq!(evaluate_type(&test, &types), Ok(Type::Bool));
    let filter = Expr::Filter { name: "upper".to_string(), expr: Some(Box::new(var("nope"))), args: vec![] };
    assert_eq!(messages(&filter, &types).len(), 1);
    let dict = Expr::Dict { keys: vec![Expr::Const(Const::String("k".to_string()))], values: vec![var("nope")] };
    assert_eq!(messages(&dict, &types).len(), 1);
    assert_eq!(evaluate_type(&Expr::Const(Const::Other), &types), Ok(Type::Unknown));
}

#[test]
fn property_access_on_other_values() {
    let mut types = PredefinedTypes::default(JinjaContext::Prompt);
    types.add_variable("n", Type::Int);
    types.add_variable("ghost", Type::ClassRef("Gone".to_string()));
    let get = |name: &str, property: &str| Expr::GetAttr { expr: Box::new(var(name)), name: property.to_string() };
    assert_eq!(messages(&get("n", "x"), &types), vec!["'n' is int, expected class"]);
    assert_eq!(messages(&get("ghost", "x"), &types), vec!["Class 'Gone' is not defined"]);
    assert_eq!(
        evaluate_type(&get("ctx", "client"), &types),
        Ok(Type::ClassRef("baml::Client".to_string()))
    );
    let nested = Expr::GetAttr { expr: Box::new(get("ctx", "client")), name: "nam".to_string() };
    let errors = evaluate_type(&nested, &types).err().unwrap();
    assert_eq!(errors[0].message, "class baml::Client (ctx.client) does not have a property 'nam'");
    assert_eq!(
        errors[0].kind,
        ErrorKind::PropertyNotDefined {
            variable: "ctx.client".to_string(),
            class: "baml::Client".to_string(),
            property: "nam".to_string(),
            suggestions: strings(&["name", "provider"]),
        }
    );
}

#[test]
fn calls_of_other_values() {
    let mut types = PredefinedTypes::default(JinjaContext::Prompt);
    types.add_variable("n", Type::Int);
    types.add_variable("f", Type::FunctionRef("gone".to_string()));
    assert_eq!(messages(&call("n", vec![]), &types), vec!["'n' is int, expected function"]);
    assert_eq!(messages(&call("f", vec![]), &types), vec!["Function 'gone' is not defined"]);
    let types = PredefinedTypes::default(JinjaContext::Prompt);
    assert_eq!(
        messages(&call("missing", vec![var("also_missing")]), &types),
        vec![
            "Variable `missing` does not exist. Did you mean one of these: `_`, `ctx`?",
            "Variable `also_missing` does not exist. Did you mean one of these: `_`, `ctx`?",
        ]
    );
}

#[test]
fn argument_binding_collects_everything() {
    let mut types = PredefinedTypes::default(JinjaContext::Prompt);
    types.add_function(
        "f",
        Type::Int,
        vec![
            ("a".to_string(), Type::Bool),
            ("b".to_string(), Type::String),
            ("c".to_string(), Type::Union(vec![Type::NoneType, Type::Int])),
        ],
    );
    let t = || Expr::Const(Const::Bool(true));
    let one = || Expr::Const(Const::Int(1));
    assert_eq!(evaluate_type(&call("f", vec![t(), kwargs(vec![("b", Expr::Const(Const::String("x".to_string())))])]), &types), Ok(Type::Int));
    assert_eq!(
        messages(&call("f", vec![t()]), &types),
        vec!["Function 'f' expects 3 arguments, but got 1"]
    );
    assert_eq!(
        messages(&call("f", vec![t(), t(), t(), t()]), &types),
        vec!["Function 'f' expects 3 arguments, but got 4"]
    );
    assert_eq!(
        messages(&call("f", vec![one(), kwargs(vec![("z", one()), ("c", t())])]), &types),
        vec![
            "Function 'f' expects argument 'a' to be of type bool, but got literal[1]",
            "Function 'f' expects argument 'b'",
            "Function 'f' expects argument 'c' to be of type (none | int), but got literal[true]",
            "Function 'f' does not have an argument 'z'. Did you mean 'b'?",
        ]
    );
    let nested = call("f", vec![call("f", vec![t()]), kwargs(vec![("b", Expr::Const(Const::String("x".to_string())))])]);
    assert_eq!(messages(&nested, &types), vec!["Function 'f' expects 3 arguments, but got 1"]);
}

#[test]
fn rendering_expressions() {
    let e = Expr::GetItem {
        expr: Box::new(Expr::GetAttr { expr: Box::new(call("f", vec![])), name: "x".to_string() }),
        subscript_expr: Box::new(Expr::Const(Const::String("k".to_string()))),
    };
    assert_eq!(render(&e), "f(...).x[\"k\"]");
    assert_eq!(render(&Expr::Const(Const::Int(-5))), "-5");
    assert_eq!(render(&Expr::Const(Const::NoneValue)), "none");
    assert_eq!(render(&Expr::Const(Const::Bool(false))), "false");
    assert_eq!(render(&Expr::Const(Const::Float("1.5".to_string()))), "1.5");
    assert_eq!(render(&Expr::List { items: vec![] }), "<expression>");
}

#[test]
fn number_constants_from_text() {
    assert_eq!(Const::number("0"), Const::Int(0));
    assert_eq!(Const::number("42"), Const::Int(42));
    assert_eq!(Const::number("-7"), Const::Int(-7));
    assert_eq!(Const::number("007"), Const::Int(7));
    assert_eq!(Const::number("-0"), Const::Int(0));
    assert_eq!(Const::number("9223372036854775807"), Const::Int(i64::MAX));
    assert_eq!(Const::number("-9223372036854775808"), Const::Int(i64::MIN));
    for text in [
        "1.1",
        "1.0",
        "",
        "-",
        "+1",
        "1e5",
        "12a",
        " 1",
        "--1",
        "9223372036854775808",
        "-9223372036854775809",
        "99999999999999999999999999",
        "inf",
    ] {
        assert_eq!(Const::number(text), Const::Float(text.to_string()), "{:?}", text);
    }
}
