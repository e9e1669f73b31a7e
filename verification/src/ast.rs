//! The parsed schema as the lowering reads it: declarations, field types,
//! expressions and attributes, each with its source span.
use vstd::prelude::*;
use crate::evaluate_type::expr::Expr;
use crate::types::Constraint;
use crate::types::JinjaExpression;
use crate::types::LiteralValue;
use crate::types::TypeValue;

verus! {

/// A region of a source file. Files are named by their index in the list of
/// sources that was parsed.
#[derive(Clone, Copy, Debug, PartialEq, Eq, Hash, Structural)]
pub struct Span {
    pub file: u32,
    pub start: usize,
    pub end: usize,
}

/// Whether a declared type may be absent.
#[derive(Clone, Copy, Debug, PartialEq, Eq, Hash, Structural)]
pub enum FieldArity {
    Required,
    Optional,
}

impl FieldArity {
    /// Whether the arity is `Optional`.
    pub open spec fn optional(self) -> bool {
        self == FieldArity::Optional
    }

    /// Whether the arity is `Optional`.
    #[verifier::when_used_as_spec(optional)]
    pub fn is_optional(self) -> (r: bool)
        ensures
            r == self.optional(),
    {
        match self {
            FieldArity::Optional => true,
            FieldArity::Required => false,
        }
    }
}

/// A dotted reference, with its path, its last name and its full spelling.
#[derive(Debug, PartialEq, Eq)]
pub struct RefIdentifier {
    pub path: Vec<String>,
    pub name: String,
    pub full_name: String,
}

/// A name in source.
#[derive(Debug, PartialEq, Eq)]
pub enum Identifier {
    /// `env.NAME`
    ENV(String, Span),
    /// A dotted reference.
    Ref(RefIdentifier, Span),
    /// A plain name.
    Local(String, Span),
    /// A name that stands for text, such as `gpt-4`.
    String(String, Span),
    /// A name that the parser could not accept.
    Invalid(String, Span),
}

/// A raw string literal.
#[derive(Debug, PartialEq, Eq)]
pub struct RawString {
    pub value: String,
    pub span: Span,
}

/// An expression in source.
#[derive(Debug, PartialEq, Eq)]
pub enum Expression {
    BoolValue(bool, Span),
    NumericValue(String, Span),
    Identifier(Identifier),
    StringValue(String, Span),
    RawStringValue(RawString),
    Array(Vec<Expression>, Span),
    Mapping(Vec<(Expression, Expression)>, Span),
    JinjaExpressionValue(JinjaExpression, Span),
}

/// One argument of an attribute.
#[derive(Debug, PartialEq, Eq)]
pub struct Argument {
    pub value: Expression,
    pub span: Span,
}

/// An attribute written on a type, such as `@assert(label, {{ this > 0 }})`.
#[derive(Debug, PartialEq, Eq)]
pub struct Attribute {
    pub name: String,
    pub arguments: Vec<Argument>,
    pub span: Span,
}

/// A declared type expression.
#[derive(Debug, PartialEq, Eq)]
pub enum FieldType {
    /// A reference to a class or an enum by name.
    Symbol(FieldArity, String, Span, Vec<Attribute>),
    Primitive(FieldArity, TypeValue, Span, Vec<Attribute>),
    Literal(FieldArity, LiteralValue, Span, Vec<Attribute>),
    /// A list of the given element type and number of dimensions.
    List(FieldArity, Box<FieldType>, u32, Span, Vec<Attribute>),
    Tuple(FieldArity, Vec<FieldType>, Span, Vec<Attribute>),
    Union(FieldArity, Vec<FieldType>, Span, Vec<Attribute>),
    /// A map with its key type and value type.
    Mapping(FieldArity, Box<(FieldType, FieldType)>, Span, Vec<Attribute>),
}

impl FieldType {
    /// The arity written on the type.
    pub open spec fn arity_of(self) -> FieldArity {
        match self {
            FieldType::Symbol(a, _, _, _) => a,
            FieldType::Primitive(a, _, _, _) => a,
            FieldType::Literal(a, _, _, _) => a,
            FieldType::List(a, _, _, _, _) => a,
            FieldType::Tuple(a, _, _, _) => a,
            FieldType::Union(a, _, _, _) => a,
            FieldType::Mapping(a, _, _, _) => a,
        }
    }

    /// Where the type is written.
    pub open spec fn span_of(self) -> Span {
        match self {
            FieldType::Symbol(_, _, s, _) => s,
            FieldType::Primitive(_, _, s, _) => s,
            FieldType::Literal(_, _, s, _) => s,
            FieldType::List(_, _, _, s, _) => s,
            FieldType::Tuple(_, _, s, _) => s,
            FieldType::Union(_, _, s, _) => s,
            FieldType::Mapping(_, _, s, _) => s,
        }
    }

    /// The attributes written on the type itself.
    pub open spec fn attributes_of(self) -> Seq<Attribute> {
        match self {
            FieldType::Symbol(_, _, _, a) => a@,
            FieldType::Primitive(_, _, _, a) => a@,
            FieldType::Literal(_, _, _, a) => a@,
            FieldType::List(_, _, _, _, a) => a@,
            FieldType::Tuple(_, _, _, a) => a@,
            FieldType::Union(_, _, _, a) => a@,
            FieldType::Mapping(_, _, _, a) => a@,
        }
    }

    /// The same type expression with another arity.
    pub open spec fn with_arity(self, arity: FieldArity) -> FieldType {
        match self {
            FieldType::Symbol(_, n, s, a) => FieldType::Symbol(arity, n, s, a),
            FieldType::Primitive(_, t, s, a) => FieldType::Primitive(arity, t, s, a),
            FieldType::Literal(_, l, s, a) => FieldType::Literal(arity, l, s, a),
            FieldType::List(_, t, d, s, a) => FieldType::List(arity, t, d, s, a),
            FieldType::Tuple(_, ts, s, a) => FieldType::Tuple(arity, ts, s, a),
            FieldType::Union(_, ts, s, a) => FieldType::Union(arity, ts, s, a),
            FieldType::Mapping(_, kv, s, a) => FieldType::Mapping(arity, kv, s, a),
        }
    }

    /// The arity written on the type.
    pub fn arity(&self) -> (r: FieldArity)
        ensures
            r == self.arity_of(),
    {
        match self {
            FieldType::Symbol(a, _, _, _) => *a,
            FieldType::Primitive(a, _, _, _) => *a,
            FieldType::Literal(a, _, _, _) => *a,
            FieldType::List(a, _, _, _, _) => *a,
            FieldType::Tuple(a, _, _, _) => *a,
            FieldType::Union(a, _, _, _) => *a,
            FieldType::Mapping(a, _, _, _) => *a,
        }
    }

    /// Where the type is written.
    pub fn span(&self) -> (r: Span)
        ensures
            r == self.span_of(),
    {
        match self {
            FieldType::Symbol(_, _, s, _) => *s,
            FieldType::Primitive(_, _, s, _) => *s,
            FieldType::Literal(_, _, s, _) => *s,
            FieldType::List(_, _, _, s, _) => *s,
            FieldType::Tuple(_, _, s, _) => *s,
            FieldType::Union(_, _, s, _) => *s,
            FieldType::Mapping(_, _, s, _) => *s,
        }
    }

    /// The attributes written on the type itself.
    pub fn attributes(&self) -> (r: &Vec<Attribute>)
        ensures
            r@ == self.attributes_of(),
    {
        match self {
            FieldType::Symbol(_, _, _, a) => a,
            FieldType::Primitive(_, _, _, a) => a,
            FieldType::Literal(_, _, _, a) => a,
            FieldType::List(_, _, _, _, a) => a,
            FieldType::Tuple(_, _, _, a) => a,
            FieldType::Union(_, _, _, a) => a,
            FieldType::Mapping(_, _, _, a) => a,
        }
    }
}

/// The attributes of a declaration after the parser has sorted them out.
#[derive(Debug, PartialEq, Eq)]
pub struct Attributes {
    pub description: Option<Expression>,
    pub alias: Option<String>,
    pub dynamic_type: Option<bool>,
    pub skip: Option<bool>,
    pub constraints: Vec<Constraint>,
}

/// One value of an enum declaration.
#[derive(Debug, PartialEq, Eq)]
pub struct EnumValueDecl {
    pub name: String,
    pub span: Span,
    pub attributes: Option<Attributes>,
}

/// An enum declaration.
#[derive(Debug, PartialEq, Eq)]
pub struct EnumDecl {
    pub name: String,
    pub span: Span,
    pub attributes: Option<Attributes>,
    pub values: Vec<EnumValueDecl>,
}

/// One field of a class declaration. The type is absent where the parser could
/// not read one.
#[derive(Debug, PartialEq, Eq)]
pub struct FieldDecl {
    pub name: String,
    pub span: Span,
    pub attributes: Option<Attributes>,
    pub expr: Option<FieldType>,
}

/// A named parameter of a class, function or template string.
#[derive(Debug, PartialEq, Eq)]
pub struct BlockArg {
    pub name: String,
    pub field_type: FieldType,
}

/// A class declaration.
#[derive(Debug, PartialEq, Eq)]
pub struct ClassDecl {
    pub name: String,
    pub span: Span,
    pub attributes: Option<Attributes>,
    pub fields: Vec<FieldDecl>,
    pub input: Option<Vec<BlockArg>>,
}

/// The client that a function names.
#[derive(Debug, PartialEq, Eq)]
pub enum ClientSpec {
    Named(String),
    /// A provider and a model, written `provider/model`.
    Shorthand(String, String),
}

/// A function declaration. The client is absent where the parser could not
/// make sense of what was written.
#[derive(Debug, PartialEq, Eq)]
pub struct FunctionDecl {
    pub name: String,
    pub span: Span,
    pub input: Option<Vec<BlockArg>>,
    pub output: Option<FieldType>,
    pub prompt: String,
    /// The expressions that the prompt holds, as parsed, in the order in which
    /// they are written.
    pub prompt_expressions: Vec<Expr>,
    pub client: Option<ClientSpec>,
}

/// A client declaration.
#[derive(Debug, PartialEq, Eq)]
pub struct ClientDecl {
    pub name: String,
    pub span: Span,
    pub provider: String,
    pub retry_policy: Option<(String, Span)>,
    pub options: Vec<(String, Expression)>,
}

/// How long to wait between retries. The multiplier is in thousandths.
#[derive(Clone, Copy, Debug, PartialEq, Eq, Hash, Structural)]
pub enum RetryPolicyStrategy {
    ConstantDelay { delay_ms: u32 },
    ExponentialBackoff { delay_ms: u32, multiplier_permille: u32, max_delay_ms: u32 },
}

/// A retry policy declaration.
#[derive(Debug, PartialEq, Eq)]
pub struct RetryPolicyDecl {
    pub name: String,
    pub span: Span,
    pub max_retries: u32,
    pub strategy: RetryPolicyStrategy,
    pub options: Option<Vec<(String, Expression)>>,
}

/// A template string declaration.
#[derive(Debug, PartialEq, Eq)]
pub struct TemplateStringDecl {
    pub name: String,
    pub span: Span,
    pub input: Option<Vec<BlockArg>>,
    pub template: String,
}

/// A test declaration: the functions it applies to and its arguments.
#[derive(Debug, PartialEq, Eq)]
pub struct TestDecl {
    pub name: String,
    pub span: Span,
    pub functions: Vec<(String, Span)>,
    pub args: Vec<(String, Expression)>,
}

/// One chat message block of a prompt.
#[derive(Debug, PartialEq, Eq)]
pub struct ChatBlock {
    pub idx: u32,
    pub role: String,
}

/// A prompt as the parser hands it over.
#[derive(Debug, PartialEq, Eq)]
pub enum PromptAst {
    String(String, Span),
    /// Pieces of content, each with the chat block it belongs to if any, and the
    /// input replacers.
    Chat(Vec<(Option<ChatBlock>, String)>, Vec<(String, String)>),
}

/// Everything that was parsed.
#[derive(Debug, PartialEq, Eq)]
pub struct ParserDatabase {
    pub enums: Vec<EnumDecl>,
    pub classes: Vec<ClassDecl>,
    pub functions: Vec<FunctionDecl>,
    pub clients: Vec<ClientDecl>,
    pub retry_policies: Vec<RetryPolicyDecl>,
    pub template_strings: Vec<TemplateStringDecl>,
    pub tests: Vec<TestDecl>,
}

/// What a type name resolves to: a class or an enum, by its position among the
/// declarations of its kind.
#[derive(Clone, Copy, Debug, PartialEq, Eq, Structural)]
pub enum TypeRef {
    Class(usize),
    Enum(usize),
}

/// The position of the first class with the given name, or the number of
/// classes if there is none.
pub open spec fn class_position(classes: Seq<ClassDecl>, name: Seq<char>) -> int
    decreases classes.len(),
{
    if classes.len() == 0 {
        0
    } else if classes[0].name@ == name {
        0
    } else {
        1 + class_position(classes.drop_first(), name)
    }
}

/// The position of the first enum with the given name, or the number of enums
/// if there is none.
pub open spec fn enum_position(enums: Seq<EnumDecl>, name: Seq<char>) -> int
    decreases enums.len(),
{
    if enums.len() == 0 {
        0
    } else if enums[0].name@ == name {
        0
    } else {
        1 + enum_position(enums.drop_first(), name)
    }
}

impl ParserDatabase {
    /// What a type name resolves to: the first class of that name, else the
    /// first enum of that name, else nothing.
    pub open spec fn resolve(self, name: Seq<char>) -> Option<TypeRef> {
        let c = class_position(self.classes@, name);
        let e = enum_position(self.enums@, name);
        if 0 <= c < self.classes@.len() {
            Some(TypeRef::Class(c as usize))
        } else if 0 <= e < self.enums@.len() {
            Some(TypeRef::Enum(e as usize))
        } else {
            None
        }
    }

    /// Looks a type name up among the classes, then among the enums.
    pub fn find_type(&self, name: &String) -> (r: Option<TypeRef>)
        ensures
            r == self.resolve(name@),
            match r {
                Some(TypeRef::Class(i)) => i < self.classes@.len() && self.classes@[i as int].name@
                    == name@,
                Some(TypeRef::Enum(i)) => i < self.enums@.len() && self.enums@[i as int].name@
                    == name@,
                None => true,
            },
    {
        let mut i: usize = 0;
        assert(self.classes@.skip(0) =~= self.classes@);
        assert(self.enums@.skip(0) =~= self.enums@);
        while i < self.classes.len()
            invariant
                i <= self.classes.len(),
                self.enums@.skip(0) == self.enums@,
                class_position(self.classes@, name@) == i + class_position(
                    self.classes@.skip(i as int),
                    name@,
                ),
            decreases self.classes.len() - i,
        {
            if self.classes[i].name == *name {
                assert(self.classes@.skip(i as int)[0] == self.classes@[i as int]);
                return Some(TypeRef::Class(i));
            }
            assert(self.classes@.skip(i as int)[0] == self.classes@[i as int]);
            assert(self.classes@.skip(i as int).drop_first() =~= self.classes@.skip(i + 1));
            i += 1;
        }
        assert(self.classes@.skip(i as int).len() == 0);
        let mut j: usize = 0;
        while j < self.enums.len()
            invariant
                j <= self.enums.len(),
                class_position(self.classes@, name@) == self.classes@.len(),
                enum_position(self.enums@, name@) == j + enum_position(
                    self.enums@.skip(j as int),
                    name@,
                ),
            decreases self.enums.len() - j,
        {
            if self.enums[j].name == *name {
                assert(self.enums@.skip(j as int)[0] == self.enums@[j as int]);
                return Some(TypeRef::Enum(j));
            }
            assert(self.enums@.skip(j as int)[0] == self.enums@[j as int]);
            assert(self.enums@.skip(j as int).drop_first() =~= self.enums@.skip(j + 1));
            j += 1;
        }
        assert(self.enums@.skip(j as int).len() == 0);
        None
    }
}

} // verus!
