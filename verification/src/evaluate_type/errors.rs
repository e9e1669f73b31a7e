//! The diagnostics of type inference.
use vstd::prelude::*;
use crate::evaluate_type::types::name_of_type;
use crate::evaluate_type::types::Type;
use crate::evaluate_type::types::TypeView;
use crate::text::decimal;
use crate::text::decimal_digits;
use crate::text::join;
use crate::text::join_spec;
use crate::text::string_views;

verus! {

/// What is wrong with an expression.
#[derive(Debug, PartialEq, Eq)]
pub enum ErrorKind {
    /// A name that is neither a variable nor a function.
    UnresolvedVariable { name: String, suggestions: Vec<String> },
    /// A property that the class of the expression does not have.
    PropertyNotDefined { variable: String, class: String, property: String, suggestions: Vec<String> },
    /// A class that the registry does not know.
    ClassNotDefined { class: String },
    /// A function that the registry does not know.
    FunctionNotDefined { function: String },
    /// A call with too few or too many arguments.
    WrongArgCount { function: String, expected: usize, got: usize },
    /// An argument whose type does not fit the parameter.
    WrongArgType { function: String, argument: String, expected: Type, got: Type },
    /// A parameter that got no argument.
    MissingArg { function: String, argument: String },
    /// A named argument that is no parameter.
    UnknownArg { function: String, argument: String, suggestions: Vec<String> },
    /// An expression of a type that cannot be used where it stands.
    InvalidType { expression: String, got: Type, expected: String },
}

/// Mathematical model of an [`ErrorKind`].
pub ghost enum ErrorKindView {
    UnresolvedVariable { name: Seq<char>, suggestions: Seq<Seq<char>> },
    PropertyNotDefined {
        variable: Seq<char>,
        class: Seq<char>,
        property: Seq<char>,
        suggestions: Seq<Seq<char>>,
    },
    ClassNotDefined { class: Seq<char> },
    FunctionNotDefined { function: Seq<char> },
    WrongArgCount { function: Seq<char>, expected: nat, got: nat },
    WrongArgType { function: Seq<char>, argument: Seq<char>, expected: TypeView, got: TypeView },
    MissingArg { function: Seq<char>, argument: Seq<char> },
    UnknownArg { function: Seq<char>, argument: Seq<char>, suggestions: Seq<Seq<char>> },
    InvalidType { expression: Seq<char>, got: TypeView, expected: Seq<char> },
}

impl View for ErrorKind {
    type V = ErrorKindView;

    open spec fn view(&self) -> ErrorKindView {
        match self {
            ErrorKind::UnresolvedVariable { name, suggestions } => ErrorKindView::UnresolvedVariable {
                name: name@,
                suggestions: string_views(suggestions@),
            },
            ErrorKind::PropertyNotDefined {
                variable,
                class,
                property,
                suggestions,
            } => ErrorKindView::PropertyNotDefined {
                variable: variable@,
                class: class@,
                property: property@,
                suggestions: string_views(suggestions@),
            },
            ErrorKind::ClassNotDefined { class } => ErrorKindView::ClassNotDefined {
                class: class@,
            },
            ErrorKind::FunctionNotDefined { function } => ErrorKindView::FunctionNotDefined {
                function: function@,
            },
            ErrorKind::WrongArgCount { function, expected, got } => ErrorKindView::WrongArgCount {
                function: function@,
                expected: *expected as nat,
                got: *got as nat,
            },
            ErrorKind::WrongArgType {
                function,
                argument,
                expected,
                got,
            } => ErrorKindView::WrongArgType {
                function: function@,
                argument: argument@,
                expected: expected@,
                got: got@,
            },
            ErrorKind::MissingArg { function, argument } => ErrorKindView::MissingArg {
                function: function@,
                argument: argument@,
            },
            ErrorKind::UnknownArg { function, argument, suggestions } => ErrorKindView::UnknownArg {
                function: function@,
                argument: argument@,
                suggestions: string_views(suggestions@),
            },
            ErrorKind::InvalidType { expression, got, expected } => ErrorKindView::InvalidType {
                expression: expression@,
                got: got@,
                expected: expected@,
            },
        }
    }
}

/// The hint that ends a message: nothing without suggestions, the one
/// suggestion, or the list of them, each between quotes.
pub open spec fn did_you_mean(names: Seq<Seq<char>>, quote: Seq<char>) -> Seq<char> {
    if names.len() == 0 {
        Seq::empty()
    } else if names.len() == 1 {
        " Did you mean "@ + quote + names[0] + quote + "?"@
    } else {
        " Did you mean one of these: "@ + quote + join_spec(names, quote + ", "@ + quote) + quote
            + "?"@
    }
}

/// The text of a diagnostic.
pub open spec fn message_of(kind: ErrorKindView) -> Seq<char> {
    match kind {
        ErrorKindView::UnresolvedVariable { name, suggestions } => "Variable `"@ + name
            + "` does not exist."@ + did_you_mean(suggestions, "`"@),
        ErrorKindView::PropertyNotDefined { variable, class, property, suggestions } => "class "@
            + class + " ("@ + variable + ") does not have a property '"@ + property + "'"@,
        ErrorKindView::ClassNotDefined { class } => "Class '"@ + class + "' is not defined"@,
        ErrorKindView::FunctionNotDefined { function } => "Function '"@ + function
            + "' is not defined"@,
        ErrorKindView::WrongArgCount { function, expected, got } => "Function '"@ + function
            + "' expects "@ + decimal_digits(expected) + " arguments, but got "@ + decimal_digits(
            got,
        ),
        ErrorKindView::WrongArgType { function, argument, expected, got } => "Function '"@
            + function + "' expects argument '"@ + argument + "' to be of type "@ + name_of_type(
            expected,
        ) + ", but got "@ + name_of_type(got),
        ErrorKindView::MissingArg { function, argument } => "Function '"@ + function
            + "' expects argument '"@ + argument + "'"@,
        ErrorKindView::UnknownArg { function, argument, suggestions } => "Function '"@ + function
            + "' does not have an argument '"@ + argument + "'."@ + did_you_mean(
            suggestions,
            "'"@,
        ),
        ErrorKindView::InvalidType { expression, got, expected } => "'"@ + expression + "' is "@
            + name_of_type(got) + ", expected "@ + expected,
    }
}

/// A diagnostic: what is wrong, and the text that says so.
#[derive(Debug, PartialEq, Eq)]
pub struct TypeError {
    pub message: String,
    pub kind: ErrorKind,
}

/// Mathematical model of a [`TypeError`].
pub ghost struct TypeErrorView {
    pub message: Seq<char>,
    pub kind: ErrorKindView,
}

impl View for TypeError {
    type V = TypeErrorView;

    open spec fn view(&self) -> TypeErrorView {
        TypeErrorView { message: self.message@, kind: self.kind@ }
    }
}

/// The diagnostic of a kind, with its text.
pub open spec fn diagnostic(kind: ErrorKindView) -> TypeErrorView {
    TypeErrorView { message: message_of(kind), kind }
}

fn hint(names: &Vec<String>, quote: &str) -> (r: String)
    ensures
        r@ == did_you_mean(string_views(names@), quote@),
{
    if names.len() == 0 {
        String::new()
    } else if names.len() == 1 {
        let mut out = String::from_str(" Did you mean ");
        out.append(quote);
        out.append(names[0].as_str());
        out.append(quote);
        out.append("?");
        out
    } else {
        let mut separator = String::from_str(quote);
        separator.append(", ");
        separator.append(quote);
        let listed = join(names, separator.as_str());
        let mut out = String::from_str(" Did you mean one of these: ");
        out.append(quote);
        out.append(listed.as_str());
        out.append(quote);
        out.append("?");
        out
    }
}

impl TypeError {
    /// The diagnostic of a kind, with its text.
    pub fn new(kind: ErrorKind) -> (r: TypeError)
        ensures
            r@ == diagnostic(kind@),
    {
        let message = match &kind {
            ErrorKind::UnresolvedVariable { name, suggestions } => {
                let mut out = String::from_str("Variable `");
                out.append(name.as_str());
                out.append("` does not exist.");
                let h = hint(suggestions, "`");
                out.append(h.as_str());
                out
            },
            ErrorKind::PropertyNotDefined { variable, class, property, suggestions } => {
                let mut out = String::from_str("class ");
                out.append(class.as_str());
                out.append(" (");
                out.append(variable.as_str());
                out.append(") does not have a property '");
                out.append(property.as_str());
                out.append("'");
                out
            },
            ErrorKind::ClassNotDefined { class } => {
                let mut out = String::from_str("Class '");
                out.append(class.as_str());
                out.append("' is not defined");
                out
            },
            ErrorKind::FunctionNotDefined { function } => {
                let mut out = String::from_str("Function '");
                out.append(function.as_str());
                out.append("' is not defined");
                out
            },
            ErrorKind::WrongArgCount { function, expected, got } => {
                let mut out = String::from_str("Function '");
                out.append(function.as_str());
                out.append("' expects ");
                let e = decimal(*expected as u64);
                out.append(e.as_str());
                out.append(" arguments, but got ");
                let g = decimal(*got as u64);
                out.append(g.as_str());
                out
            },
            ErrorKind::WrongArgType { function, argument, expected, got } => {
                let mut out = String::from_str("Function '");
                out.append(function.as_str());
                out.append("' expects argument '");
                out.append(argument.as_str());
                out.append("' to be of type ");
                let e = expected.name();
                out.append(e.as_str());
                out.append(", but got ");
                let g = got.name();
                out.append(g.as_str());
                out
            },
            ErrorKind::MissingArg { function, argument } => {
                let mut out = String::from_str("Function '");
                out.append(function.as_str());
                out.append("' expects argument '");
                out.append(argument.as_str());
                out.append("'");
                out
            },
            ErrorKind::UnknownArg { function, argument, suggestions } => {
                let mut out = String::from_str("Function '");
                out.append(function.as_str());
                out.append("' does not have an argument '");
                out.append(argument.as_str());
                out.append("'.");
                let h = hint(suggestions, "'");
                out.append(h.as_str());
                out
            },
            ErrorKind::InvalidType { expression, got, expected } => {
                let mut out = String::from_str("'");
                out.append(expression.as_str());
                out.append("' is ");
                let g = got.name();
                out.append(g.as_str());
                out.append(", expected ");
                out.append(expected.as_str());
                out
            },
        };
        TypeError { message, kind }
    }
}

} // verus!
