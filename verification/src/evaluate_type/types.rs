//! The types that expressions can have, with their order, their subtyping and
//! the merge of alternatives.
//!
//! The members of a union are kept in a canonical order: by kind of type, in
//! the order in which [`Type`] lists the kinds, and within a kind by value.
//! Literals order as strings, then integers, then booleans.
use vstd::prelude::*;
use crate::text::join;
use crate::text::join_spec;
use crate::text::lex_lt;
use crate::text::signed_decimal;
use crate::text::signed_decimal_digits;
use crate::text::str_lt;
use crate::text::string_views;
use crate::types::LiteralValue;
use crate::types::LiteralValueView;

verus! {

/// The type of an expression.
#[derive(Debug, PartialEq, Eq)]
pub enum Type {
    /// The type of an expression that could not be typed; it stands for any
    /// type, so that one error does not cause others.
    Unknown,
    /// The type of `none`.
    NoneType,
    Int,
    Float,
    Number,
    String,
    Bool,
    Literal(LiteralValue),
    Optional(Box<Type>),
    List(Box<Type>),
    Union(Vec<Type>),
    ClassRef(String),
    FunctionRef(String),
}

/// Mathematical model of a [`Type`].
pub ghost enum TypeView {
    Unknown,
    /// The type of `none`.
    NoneType,
    Int,
    Float,
    Number,
    String,
    Bool,
    Literal(LiteralValueView),
    Optional(Box<TypeView>),
    List(Box<TypeView>),
    Union(Seq<TypeView>),
    ClassRef(Seq<char>),
    FunctionRef(Seq<char>),
}

/// The model of a type, defined by recursion over its structure.
pub open spec fn type_view(t: Type) -> TypeView
    decreases t,
{
    match t {
        Type::Unknown => TypeView::Unknown,
        Type::NoneType => TypeView::NoneType,
        Type::Int => TypeView::Int,
        Type::Float => TypeView::Float,
        Type::Number => TypeView::Number,
        Type::String => TypeView::String,
        Type::Bool => TypeView::Bool,
        Type::Literal(l) => TypeView::Literal(l@),
        Type::Optional(inner) => TypeView::Optional(Box::new(type_view(*inner))),
        Type::List(inner) => TypeView::List(Box::new(type_view(*inner))),
        Type::Union(ts) => TypeView::Union(
            Seq::new(
                ts@.len(),
                |i: int|
                    if 0 <= i < ts@.len() {
                        type_view(ts@[i])
                    } else {
                        TypeView::Unknown
                    },
            ),
        ),
        Type::ClassRef(n) => TypeView::ClassRef(n@),
        Type::FunctionRef(n) => TypeView::FunctionRef(n@),
    }
}

impl View for Type {
    type V = TypeView;

    open spec fn view(&self) -> TypeView {
        type_view(*self)
    }
}

/// The models of a sequence of types, in order.
pub open spec fn type_views(ts: Seq<Type>) -> Seq<TypeView> {
    Seq::new(ts.len(), |i: int| ts[i]@)
}

/// The members of a union type are the models of its members.
pub proof fn lemma_union_view(ts: Vec<Type>)
    ensures
        Type::Union(ts)@ == TypeView::Union(type_views(ts@)),
{
    assert(Type::Union(ts)@->Union_0 =~= type_views(ts@));
}

impl Type {
    /// An independent copy of the type.
    pub fn duplicate(&self) -> (r: Type)
        ensures
            r@ == self@,
        decreases self,
    {
        match self {
            Type::Unknown => Type::Unknown,
            Type::NoneType => Type::NoneType,
            Type::Int => Type::Int,
            Type::Float => Type::Float,
            Type::Number => Type::Number,
            Type::String => Type::String,
            Type::Bool => Type::Bool,
            Type::Literal(l) => Type::Literal(l.duplicate()),
            Type::Optional(inner) => Type::Optional(Box::new(inner.duplicate())),
            Type::List(inner) => Type::List(Box::new(inner.duplicate())),
            Type::Union(ts) => {
                let mut out: Vec<Type> = Vec::new();
                let mut i: usize = 0;
                while i < ts.len()
                    invariant
                        i <= ts.len(),
                        out@.len() == i,
                        forall|j: int| 0 <= j < i ==> out@[j]@ == ts@[j]@,
                        forall|j: int| 0 <= j < ts.len() ==> decreases_to!(self => ts@[j]),
                    decreases ts.len() - i,
                {
                    out.push(ts[i].duplicate());
                    i += 1;
                }
                proof {
                    lemma_union_view(out);
                    lemma_union_view(*ts);
                    assert(type_views(out@) =~= type_views(ts@));
                }
                Type::Union(out)
            },
            Type::ClassRef(n) => Type::ClassRef(n.clone()),
            Type::FunctionRef(n) => Type::FunctionRef(n.clone()),
        }
    }

    /// Whether two types are the same.
    pub fn same(&self, other: &Type) -> (r: bool)
        ensures
            r == (self@ == other@),
        decreases self,
    {
        match (self, other) {
            (Type::Unknown, Type::Unknown) => true,
            (Type::NoneType, Type::NoneType) => true,
            (Type::Int, Type::Int) => true,
            (Type::Float, Type::Float) => true,
            (Type::Number, Type::Number) => true,
            (Type::String, Type::String) => true,
            (Type::Bool, Type::Bool) => true,
            (Type::Literal(a), Type::Literal(b)) => a.same(b),
            (Type::Optional(a), Type::Optional(b)) => a.same(b),
            (Type::List(a), Type::List(b)) => a.same(b),
            (Type::Union(xs), Type::Union(ys)) => {
                proof {
                    lemma_union_view(*xs);
                    lemma_union_view(*ys);
                }
                if xs.len() != ys.len() {
                    assert(type_views(xs@).len() != type_views(ys@).len());
                    return false;
                }
                let mut i: usize = 0;
                while i < xs.len()
                    invariant
                        i <= xs.len(),
                        xs.len() == ys.len(),
                        self@ == TypeView::Union(type_views(xs@)),
                        other@ == TypeView::Union(type_views(ys@)),
                        forall|j: int| 0 <= j < i ==> xs@[j]@ == ys@[j]@,
                        forall|j: int| 0 <= j < xs.len() ==> decreases_to!(self => xs@[j]),
                    decreases xs.len() - i,
                {
                    if !xs[i].same(&ys[i]) {
                        assert(type_views(xs@)[i as int] != type_views(ys@)[i as int]);
                        return false;
                    }
                    i += 1;
                }
                assert(type_views(xs@) =~= type_views(ys@));
                true
            },
            (Type::ClassRef(a), Type::ClassRef(b)) => *a == *b,
            (Type::FunctionRef(a), Type::FunctionRef(b)) => *a == *b,
            _ => false,
        }
    }
}

impl Clone for Type {
    fn clone(&self) -> (r: Type)
        ensures
            r@ == self@,
    {
        self.duplicate()
    }
}

/// The place of the kind of a type in the order of kinds.
pub open spec fn rank(t: TypeView) -> int {
    match t {
        TypeView::Unknown => 0,
        TypeView::NoneType => 1,
        TypeView::Int => 2,
        TypeView::Float => 3,
        TypeView::Number => 4,
        TypeView::String => 5,
        TypeView::Bool => 6,
        TypeView::Literal(_) => 7,
        TypeView::Optional(_) => 8,
        TypeView::List(_) => 9,
        TypeView::Union(_) => 10,
        TypeView::ClassRef(_) => 11,
        TypeView::FunctionRef(_) => 12,
    }
}

/// The order of literals: strings in lexicographic order, then integers in
/// ascending order, then `false`, then `true`.
pub open spec fn literal_lt(a: LiteralValueView, b: LiteralValueView) -> bool {
    match (a, b) {
        (LiteralValueView::String(x), LiteralValueView::String(y)) => lex_lt(x, y),
        (LiteralValueView::String(_), _) => true,
        (LiteralValueView::Int(_), LiteralValueView::String(_)) => false,
        (LiteralValueView::Int(x), LiteralValueView::Int(y)) => x < y,
        (LiteralValueView::Int(_), LiteralValueView::Bool(_)) => true,
        (LiteralValueView::Bool(x), LiteralValueView::Bool(y)) => !x && y,
        (LiteralValueView::Bool(_), _) => false,
    }
}

/// The canonical order of types: by kind, and within a kind by value. Unions
/// order as the sequences of their members do.
pub open spec fn type_lt(a: TypeView, b: TypeView) -> bool
    decreases a, 0nat,
{
    if rank(a) != rank(b) {
        rank(a) < rank(b)
    } else {
        match (a, b) {
            (TypeView::Literal(x), TypeView::Literal(y)) => literal_lt(x, y),
            (TypeView::Optional(x), TypeView::Optional(y)) => type_lt(*x, *y),
            (TypeView::List(x), TypeView::List(y)) => type_lt(*x, *y),
            (TypeView::Union(xs), TypeView::Union(ys)) => members_lt(xs, ys, 0),
            (TypeView::ClassRef(x), TypeView::ClassRef(y)) => lex_lt(x, y),
            (TypeView::FunctionRef(x), TypeView::FunctionRef(y)) => lex_lt(x, y),
            _ => false,
        }
    }
}

/// The lexicographic order of two sequences of types that agree before `i`.
pub open spec fn members_lt(xs: Seq<TypeView>, ys: Seq<TypeView>, i: int) -> bool
    decreases xs, xs.len() - i,
{
    if i < 0 || i >= ys.len() {
        false
    } else if i >= xs.len() {
        true
    } else if xs[i] != ys[i] {
        type_lt(xs[i], ys[i])
    } else {
        members_lt(xs, ys, i + 1)
    }
}

/// The name of a literal as messages show it.
pub open spec fn literal_name(l: LiteralValueView) -> Seq<char> {
    match l {
        LiteralValueView::String(s) => "literal[\""@ + s + "\"]"@,
        LiteralValueView::Int(i) => "literal["@ + signed_decimal_digits(i) + "]"@,
        LiteralValueView::Bool(b) => if b {
            "literal[true]"@
        } else {
            "literal[false]"@
        },
    }
}

/// The name of a type as messages show it.
pub open spec fn name_of_type(t: TypeView) -> Seq<char>
    decreases t, 0nat,
{
    match t {
        TypeView::Unknown => "<unknown>"@,
        TypeView::NoneType => "none"@,
        TypeView::Int => "int"@,
        TypeView::Float => "float"@,
        TypeView::Number => "number"@,
        TypeView::String => "string"@,
        TypeView::Bool => "bool"@,
        TypeView::Literal(l) => literal_name(l),
        TypeView::Optional(inner) => "optional["@ + name_of_type(*inner) + "]"@,
        TypeView::List(inner) => "list["@ + name_of_type(*inner) + "]"@,
        TypeView::Union(ts) => "("@ + join_spec(names_of_types(ts), " | "@) + ")"@,
        TypeView::ClassRef(n) => "class "@ + n,
        TypeView::FunctionRef(n) => "function "@ + n,
    }
}

/// The names of a sequence of types.
pub open spec fn names_of_types(ts: Seq<TypeView>) -> Seq<Seq<char>>
    decreases ts, 0nat,
{
    Seq::new(
        ts.len(),
        |i: int|
            if 0 <= i < ts.len() {
                name_of_type(ts[i])
            } else {
                Seq::empty()
            },
    )
}

/// Whether `none` is a value of the type.
pub open spec fn accepts_none(t: TypeView) -> bool
    decreases t,
{
    match t {
        TypeView::Unknown => true,
        TypeView::NoneType => true,
        TypeView::Optional(_) => true,
        TypeView::Union(ts) => exists|i: int| 0 <= i < ts.len() && accepts_none(#[trigger] ts[i]),
        _ => false,
    }
}

/// The subtyping between two types that are neither unknown, nor equal, nor a
/// union, nor optional: literals widen to their base types, integers and
/// floats to numbers, and lists vary with their elements.
pub open spec fn widens(a: TypeView, b: TypeView) -> bool {
    match (a, b) {
        (TypeView::Literal(LiteralValueView::Int(_)), TypeView::Int) => true,
        (TypeView::Literal(LiteralValueView::Int(_)), TypeView::Number) => true,
        (TypeView::Literal(LiteralValueView::String(_)), TypeView::String) => true,
        (TypeView::Literal(LiteralValueView::Bool(_)), TypeView::Bool) => true,
        (TypeView::Int, TypeView::Number) => true,
        (TypeView::Float, TypeView::Number) => true,
        _ => false,
    }
}

/// Whether every value of `a` is a value of `b`.
///
/// The unknown type is a subtype and a supertype of every type. A union is a
/// subtype when each of its members is; an optional type when its inner type is
/// and `b` accepts `none`. A type is a subtype of a union when it is one of some
/// member, and of an optional type when it is `none` or a subtype of the inner
/// type.
pub open spec fn subtype(a: TypeView, b: TypeView) -> bool
    decreases a, b,
{
    if a is Unknown || b is Unknown {
        true
    } else if a == b {
        true
    } else {
        match a {
            TypeView::Union(xs) => forall|i: int|
                0 <= i < xs.len() ==> subtype(#[trigger] xs[i], b),
            TypeView::Optional(x) => accepts_none(b) && subtype(*x, b),
            _ => match b {
                TypeView::Union(ys) => exists|i: int|
                    0 <= i < ys.len() && subtype(a, #[trigger] ys[i]),
                TypeView::Optional(y) => a is NoneType || subtype(a, *y),
                TypeView::List(y) => match a {
                    TypeView::List(x) => subtype(*x, *y),
                    _ => false,
                },
                _ => widens(a, b),
            },
        }
    }
}

/// The alternatives with every union among them replaced by its members.
pub open spec fn flatten_members(ts: Seq<TypeView>) -> Seq<TypeView>
    decreases ts.len(),
{
    if ts.len() == 0 {
        Seq::empty()
    } else {
        flatten_members(ts.drop_last()) + match ts.last() {
            TypeView::Union(ms) => ms,
            t => seq![t],
        }
    }
}

/// The position of the first member that does not come before `t`, or the
/// length of the sequence if every member comes before it.
pub open spec fn member_position(s: Seq<TypeView>, t: TypeView) -> int
    decreases s.len(),
{
    if s.len() == 0 {
        0
    } else if !type_lt(s[0], t) {
        0
    } else {
        1 + member_position(s.drop_first(), t)
    }
}

/// The members with `t` added in its place, unless it is there already.
pub open spec fn with_type(s: Seq<TypeView>, t: TypeView) -> Seq<TypeView> {
    let p = member_position(s, t);
    if 0 <= p < s.len() && s[p] == t {
        s
    } else {
        s.insert(p, t)
    }
}

/// The types in canonical order, each once.
pub open spec fn canonical(ts: Seq<TypeView>) -> Seq<TypeView>
    decreases ts.len(),
{
    if ts.len() == 0 {
        Seq::empty()
    } else {
        with_type(canonical(ts.drop_last()), ts.last())
    }
}

/// The type of a value that has one of the given types: the one type if they
/// are all the same, and otherwise the union of the different types in
/// canonical order. Unions among the alternatives count as their members.
pub open spec fn merged(ts: Seq<TypeView>) -> TypeView {
    let members = canonical(flatten_members(ts));
    if members.len() == 1 {
        members[0]
    } else {
        TypeView::Union(members)
    }
}

fn literal_precedes(a: &LiteralValue, b: &LiteralValue) -> (r: bool)
    ensures
        r == literal_lt(a@, b@),
{
    match (a, b) {
        (LiteralValue::String(x), LiteralValue::String(y)) => str_lt(x.as_str(), y.as_str()),
        (LiteralValue::String(_), _) => true,
        (LiteralValue::Int(_), LiteralValue::String(_)) => false,
        (LiteralValue::Int(x), LiteralValue::Int(y)) => *x < *y,
        (LiteralValue::Int(_), LiteralValue::Bool(_)) => true,
        (LiteralValue::Bool(x), LiteralValue::Bool(y)) => !*x && *y,
        (LiteralValue::Bool(_), _) => false,
    }
}

fn literal_text(l: &LiteralValue) -> (r: String)
    ensures
        r@ == literal_name(l@),
{
    match l {
        LiteralValue::String(s) => {
            let mut out = String::from_str("literal[\"");
            out.append(s.as_str());
            out.append("\"]");
            out
        },
        LiteralValue::Int(i) => {
            let mut out = String::from_str("literal[");
            let digits = signed_decimal(*i);
            out.append(digits.as_str());
            out.append("]");
            out
        },
        LiteralValue::Bool(b) => if *b {
            String::from_str("literal[true]")
        } else {
            String::from_str("literal[false]")
        },
    }
}

impl Type {
    fn rank_of(&self) -> (r: u8)
        ensures
            r == rank(self@),
    {
        match self {
            Type::Unknown => 0,
            Type::NoneType => 1,
            Type::Int => 2,
            Type::Float => 3,
            Type::Number => 4,
            Type::String => 5,
            Type::Bool => 6,
            Type::Literal(_) => 7,
            Type::Optional(_) => 8,
            Type::List(_) => 9,
            Type::Union(_) => 10,
            Type::ClassRef(_) => 11,
            Type::FunctionRef(_) => 12,
        }
    }

    /// Whether the type comes before another in the canonical order.
    pub fn precedes(&self, other: &Type) -> (r: bool)
        ensures
            r == type_lt(self@, other@),
        decreases self,
    {
        let x = self.rank_of();
        let y = other.rank_of();
        if x != y {
            return x < y;
        }
        match (self, other) {
            (Type::Literal(a), Type::Literal(b)) => literal_precedes(a, b),
            (Type::Optional(a), Type::Optional(b)) => a.precedes(b),
            (Type::List(a), Type::List(b)) => a.precedes(b),
            (Type::Union(xs), Type::Union(ys)) => {
                proof {
                    lemma_union_view(*xs);
                    lemma_union_view(*ys);
                }
                let ghost vx = type_views(xs@);
                let ghost vy = type_views(ys@);
                let mut i: usize = 0;
                while i < xs.len() && i < ys.len()
                    invariant
                        i <= xs.len(),
                        i <= ys.len(),
                        vx == type_views(xs@),
                        vy == type_views(ys@),
                        type_lt(self@, other@) == members_lt(vx, vy, i as int),
                        forall|j: int| 0 <= j < xs.len() ==> decreases_to!(self => xs@[j]),
                    decreases xs.len() - i,
                {
                    assert(vx[i as int] == xs@[i as int]@);
                    assert(vy[i as int] == ys@[i as int]@);
                    if !xs[i].same(&ys[i]) {
                        return xs[i].precedes(&ys[i]);
                    }
                    i += 1;
                }
                i < ys.len()
            },
            (Type::ClassRef(a), Type::ClassRef(b)) => str_lt(a.as_str(), b.as_str()),
            (Type::FunctionRef(a), Type::FunctionRef(b)) => str_lt(a.as_str(), b.as_str()),
            _ => false,
        }
    }

    /// The name of the type as messages show it.
    pub fn name(&self) -> (r: String)
        ensures
            r@ == name_of_type(self@),
        decreases self,
    {
        match self {
            Type::Unknown => String::from_str("<unknown>"),
            Type::NoneType => String::from_str("none"),
            Type::Int => String::from_str("int"),
            Type::Float => String::from_str("float"),
            Type::Number => String::from_str("number"),
            Type::String => String::from_str("string"),
            Type::Bool => String::from_str("bool"),
            Type::Literal(l) => literal_text(l),
            Type::Optional(inner) => {
                let mut out = String::from_str("optional[");
                let n = inner.name();
                out.append(n.as_str());
                out.append("]");
                out
            },
            Type::List(inner) => {
                let mut out = String::from_str("list[");
                let n = inner.name();
                out.append(n.as_str());
                out.append("]");
                out
            },
            Type::Union(ts) => {
                proof {
                    lemma_union_view(*ts);
                }
                let ghost vs = type_views(ts@);
                let mut names: Vec<String> = Vec::new();
                let mut i: usize = 0;
                while i < ts.len()
                    invariant
                        i <= ts.len(),
                        vs == type_views(ts@),
                        names@.len() == i,
                        forall|j: int| 0 <= j < i ==> (#[trigger] names@[j])@ == name_of_type(vs[j]),
                        forall|j: int| 0 <= j < ts.len() ==> decreases_to!(self => ts@[j]),
                    decreases ts.len() - i,
                {
                    assert(vs[i as int] == ts@[i as int]@);
                    names.push(ts[i].name());
                    i += 1;
                }
                assert(string_views(names@) =~= names_of_types(vs));
                let mut out = String::from_str("(");
                let inner = join(&names, " | ");
                out.append(inner.as_str());
                out.append(")");
                out
            },
            Type::ClassRef(n) => {
                let mut out = String::from_str("class ");
                out.append(n.as_str());
                out
            },
            Type::FunctionRef(n) => {
                let mut out = String::from_str("function ");
                out.append(n.as_str());
                out
            },
        }
    }

    /// Whether `none` is a value of the type.
    pub fn is_optional(&self) -> (r: bool)
        ensures
            r == accepts_none(self@),
        decreases self,
    {
        match self {
            Type::Unknown => true,
            Type::NoneType => true,
            Type::Optional(_) => true,
            Type::Union(ts) => {
                let mut i: usize = 0;
                while i < ts.len()
                    invariant
                        i <= ts.len(),
                        self@ is Union,
                        self@->Union_0.len() == ts@.len(),
                        forall|j: int|
                            0 <= j < ts@.len() ==> (#[trigger] self@->Union_0[j]) == ts@[j]@,
                        forall|j: int| 0 <= j < i ==> !accepts_none(#[trigger] self@->Union_0[j]),
                        forall|j: int| 0 <= j < ts.len() ==> decreases_to!(self => ts@[j]),
                    decreases ts.len() - i,
                {
                    if ts[i].is_optional() {
                        assert(accepts_none(self@->Union_0[i as int]));
                        return true;
                    }
                    i += 1;
                }
                false
            },
            _ => false,
        }
    }

    fn widens_to(&self, other: &Type) -> (r: bool)
        ensures
            r == widens(self@, other@),
    {
        match (self, other) {
            (Type::Literal(LiteralValue::Int(_)), Type::Int) => true,
            (Type::Literal(LiteralValue::Int(_)), Type::Number) => true,
            (Type::Literal(LiteralValue::String(_)), Type::String) => true,
            (Type::Literal(LiteralValue::Bool(_)), Type::Bool) => true,
            (Type::Int, Type::Number) => true,
            (Type::Float, Type::Number) => true,
            _ => false,
        }
    }

    /// Whether every value of the type is a value of `other`.
    #[verifier::loop_isolation(false)]
    pub fn is_subtype_of(&self, other: &Type) -> (r: bool)
        ensures
            r == subtype(self@, other@),
        decreases self, other,
    {
        if matches!(self, Type::Unknown) || matches!(other, Type::Unknown) {
            return true;
        }
        if self.same(other) {
            return true;
        }
        match self {
            Type::Union(xs) => {
                let mut i: usize = 0;
                while i < xs.len()
                    invariant
                        i <= xs.len(),
                        self@ is Union,
                        self@->Union_0.len() == xs@.len(),
                        forall|j: int|
                            0 <= j < xs@.len() ==> (#[trigger] self@->Union_0[j]) == xs@[j]@,
                        forall|j: int| 0 <= j < i ==> subtype(#[trigger] self@->Union_0[j], other@),
                        forall|j: int| 0 <= j < xs.len() ==> decreases_to!(self => xs@[j]),
                    decreases xs.len() - i,
                {
                    if !xs[i].is_subtype_of(other) {
                        assert(!subtype(self@->Union_0[i as int], other@));
                        return false;
                    }
                    i += 1;
                }
                true
            },
            Type::Optional(x) => other.is_optional() && x.is_subtype_of(other),
            _ => match other {
                Type::Union(ys) => {
                    let mut i: usize = 0;
                    while i < ys.len()
                        invariant
                            i <= ys.len(),
                            other@ is Union,
                            other@->Union_0.len() == ys@.len(),
                            forall|j: int|
                                0 <= j < ys@.len() ==> (#[trigger] other@->Union_0[j]) == ys@[j]@,
                            forall|j: int|
                                0 <= j < i ==> !subtype(self@, #[trigger] other@->Union_0[j]),
                            forall|j: int| 0 <= j < ys.len() ==> decreases_to!(other => ys@[j]),
                        decreases ys.len() - i,
                    {
                        if self.is_subtype_of(&ys[i]) {
                            assert(subtype(self@, other@->Union_0[i as int]));
                            return true;
                        }
                        i += 1;
                    }
                    false
                },
                Type::Optional(y) => matches!(self, Type::NoneType) || self.is_subtype_of(y),
                Type::List(y) => match self {
                    Type::List(x) => x.is_subtype_of(y),
                    _ => false,
                },
                _ => self.widens_to(other),
            },
        }
    }
}

fn position_of_member(members: &Vec<Type>, t: &Type) -> (p: usize)
    ensures
        p == member_position(type_views(members@), t@),
        p <= members@.len(),
{
    let mut p: usize = 0;
    let ghost vs = type_views(members@);
    assert(vs.skip(0) =~= vs);
    while p < members.len()
        invariant
            p <= members.len(),
            vs == type_views(members@),
            member_position(vs, t@) == p + member_position(vs.skip(p as int), t@),
        decreases members.len() - p,
    {
        assert(vs.skip(p as int)[0] == members@[p as int]@);
        if !members[p].precedes(t) {
            return p;
        }
        assert(vs.skip(p as int).drop_first() =~= vs.skip(p + 1));
        p += 1;
    }
    assert(vs.skip(p as int).len() == 0);
    p
}

fn add_member(members: &mut Vec<Type>, t: Type)
    ensures
        type_views(final(members)@) == with_type(type_views(old(members)@), t@),
{
    let p = position_of_member(members, &t);
    let ghost before = members@;
    if p < members.len() && members[p].same(&t) {
    } else {
        members.insert(p, t);
        assert(type_views(members@) =~= type_views(before).insert(p as int, t@));
    }
}

impl Type {
    /// The type of a value that has one of the given types.
    ///
    /// Unions among the alternatives count as their members. The result is the
    /// one alternative if all are the same, and otherwise the union of the
    /// different alternatives in canonical order.
    pub fn merge(ts: Vec<Type>) -> (r: Type)
        ensures
            r@ == merged(type_views(ts@)),
    {
        let ghost given = type_views(ts@);
        let mut members: Vec<Type> = Vec::new();
        let mut i: usize = 0;
        assert(given.take(0) =~= Seq::empty());
        assert(type_views(members@) =~= Seq::empty());
        while i < ts.len()
            invariant
                i <= ts.len(),
                given == type_views(ts@),
                type_views(members@) == canonical(flatten_members(given.take(i as int))),
            decreases ts.len() - i,
        {
            let ghost done = flatten_members(given.take(i as int));
            proof {
                assert(given.take(i + 1).drop_last() =~= given.take(i as int));
                assert(given.take(i + 1).last() == ts@[i as int]@);
            }
            match &ts[i] {
                Type::Union(ms) => {
                    proof {
                        lemma_union_view(*ms);
                    }
                    let ghost vs = type_views(ms@);
                    let mut k: usize = 0;
                    assert(done + vs.take(0) =~= done);
                    while k < ms.len()
                        invariant
                            k <= ms.len(),
                            vs == type_views(ms@),
                            type_views(members@) == canonical(done + vs.take(k as int)),
                        decreases ms.len() - k,
                    {
                        proof {
                            assert((done + vs.take(k + 1)).drop_last() =~= done + vs.take(
                                k as int,
                            ));
                            assert((done + vs.take(k + 1)).last() == ms@[k as int]@);
                        }
                        add_member(&mut members, ms[k].duplicate());
                        k += 1;
                    }
                    assert(vs.take(ms.len() as int) =~= vs);
                },
                t => {
                    proof {
                        assert((done + seq![t@]).drop_last() =~= done);
                        assert((done + seq![t@]).last() == t@);
                    }
                    add_member(&mut members, t.duplicate());
                },
            }
            i += 1;
        }
        assert(given.take(ts.len() as int) =~= given);
        if members.len() == 1 {
            members.pop().unwrap()
        } else {
            proof {
                lemma_union_view(members);
            }
            Type::Union(members)
        }
    }
}

} // verus!
