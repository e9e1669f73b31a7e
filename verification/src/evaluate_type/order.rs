//! The canonical order of types is a strict total order, and the members of a
//! merged union are in that order, each once.
use vstd::prelude::*;
use crate::evaluate_type::types::canonical;
use crate::evaluate_type::types::flatten_members;
use crate::evaluate_type::types::merged;
use crate::evaluate_type::types::literal_lt;
use crate::evaluate_type::types::member_position;
use crate::evaluate_type::types::members_lt;
use crate::evaluate_type::types::rank;
use crate::evaluate_type::types::type_lt;
use crate::evaluate_type::types::with_type;
use crate::evaluate_type::types::TypeView;
use crate::text::lemma_lex_lt_asymmetric;
use crate::text::lemma_lex_lt_total;
use crate::text::lemma_lex_lt_transitive;
use crate::types::LiteralValueView;

verus! {

/// Of two different literals one comes before the other.
pub proof fn lemma_literal_total(a: LiteralValueView, b: LiteralValueView)
    ensures
        a == b || literal_lt(a, b) || literal_lt(b, a),
{
    match (a, b) {
        (LiteralValueView::String(x), LiteralValueView::String(y)) => {
            lemma_lex_lt_total(x, y);
        },
        _ => {},
    }
}

/// No two literals come before each other.
pub proof fn lemma_literal_asymmetric(a: LiteralValueView, b: LiteralValueView)
    requires
        literal_lt(a, b),
    ensures
        !literal_lt(b, a),
        a != b,
{
    match (a, b) {
        (LiteralValueView::String(x), LiteralValueView::String(y)) => {
            lemma_lex_lt_asymmetric(x, y);
        },
        _ => {},
    }
}

/// The order of literals is transitive.
pub proof fn lemma_literal_transitive(a: LiteralValueView, b: LiteralValueView, c: LiteralValueView)
    requires
        literal_lt(a, b),
        literal_lt(b, c),
    ensures
        literal_lt(a, c),
{
    match (a, b, c) {
        (
            LiteralValueView::String(x),
            LiteralValueView::String(y),
            LiteralValueView::String(z),
        ) => {
            lemma_lex_lt_transitive(x, y, z);
        },
        _ => {},
    }
}

/// Of two different types one comes before the other.
pub proof fn lemma_type_total(a: TypeView, b: TypeView)
    ensures
        a == b || type_lt(a, b) || type_lt(b, a),
    decreases a, 0nat,
{
    if rank(a) == rank(b) {
        match (a, b) {
            (TypeView::Literal(x), TypeView::Literal(y)) => {
                lemma_literal_total(x, y);
            },
            (TypeView::Optional(x), TypeView::Optional(y)) => {
                lemma_type_total(*x, *y);
            },
            (TypeView::List(x), TypeView::List(y)) => {
                lemma_type_total(*x, *y);
            },
            (TypeView::Union(xs), TypeView::Union(ys)) => {
                lemma_members_total(xs, ys, 0);
            },
            (TypeView::ClassRef(x), TypeView::ClassRef(y)) => {
                lemma_lex_lt_total(x, y);
            },
            (TypeView::FunctionRef(x), TypeView::FunctionRef(y)) => {
                lemma_lex_lt_total(x, y);
            },
            _ => {},
        }
    }
}

proof fn lemma_members_total(xs: Seq<TypeView>, ys: Seq<TypeView>, i: int)
    requires
        0 <= i <= xs.len(),
        i <= ys.len(),
        forall|k: int| 0 <= k < i ==> xs[k] == ys[k],
    ensures
        xs == ys || members_lt(xs, ys, i) || members_lt(ys, xs, i),
    decreases xs, xs.len() - i,
{
    if i < xs.len() && i < ys.len() {
        if xs[i] == ys[i] {
            lemma_members_total(xs, ys, i + 1);
        } else {
            lemma_type_total(xs[i], ys[i]);
        }
    } else if i == xs.len() && i == ys.len() {
        assert(xs =~= ys);
    }
}

/// No two types come before each other, and none before itself.
pub proof fn lemma_type_asymmetric(a: TypeView, b: TypeView)
    requires
        type_lt(a, b),
    ensures
        !type_lt(b, a),
        a != b,
    decreases a, 0nat,
{
    if rank(a) == rank(b) {
        match (a, b) {
            (TypeView::Literal(x), TypeView::Literal(y)) => {
                lemma_literal_asymmetric(x, y);
            },
            (TypeView::Optional(x), TypeView::Optional(y)) => {
                lemma_type_asymmetric(*x, *y);
            },
            (TypeView::List(x), TypeView::List(y)) => {
                lemma_type_asymmetric(*x, *y);
            },
            (TypeView::Union(xs), TypeView::Union(ys)) => {
                lemma_members_asymmetric(xs, ys, 0);
            },
            (TypeView::ClassRef(x), TypeView::ClassRef(y)) => {
                lemma_lex_lt_asymmetric(x, y);
            },
            (TypeView::FunctionRef(x), TypeView::FunctionRef(y)) => {
                lemma_lex_lt_asymmetric(x, y);
            },
            _ => {},
        }
    }
}

proof fn lemma_members_asymmetric(xs: Seq<TypeView>, ys: Seq<TypeView>, i: int)
    requires
        0 <= i,
        members_lt(xs, ys, i),
    ensures
        !members_lt(ys, xs, i),
        xs != ys,
    decreases xs, xs.len() - i,
{
    if i < xs.len() {
        if xs[i] == ys[i] {
            lemma_members_asymmetric(xs, ys, i + 1);
        } else {
            lemma_type_asymmetric(xs[i], ys[i]);
        }
    }
}

/// The order of types is transitive.
pub proof fn lemma_type_transitive(a: TypeView, b: TypeView, c: TypeView)
    requires
        type_lt(a, b),
        type_lt(b, c),
    ensures
        type_lt(a, c),
    decreases a, 0nat,
{
    if rank(a) == rank(b) && rank(b) == rank(c) {
        match (a, b, c) {
            (TypeView::Literal(x), TypeView::Literal(y), TypeView::Literal(z)) => {
                lemma_literal_transitive(x, y, z);
            },
            (TypeView::Optional(x), TypeView::Optional(y), TypeView::Optional(z)) => {
                lemma_type_transitive(*x, *y, *z);
            },
            (TypeView::List(x), TypeView::List(y), TypeView::List(z)) => {
                lemma_type_transitive(*x, *y, *z);
            },
            (TypeView::Union(xs), TypeView::Union(ys), TypeView::Union(zs)) => {
                lemma_members_transitive(xs, ys, zs, 0);
            },
            (TypeView::ClassRef(x), TypeView::ClassRef(y), TypeView::ClassRef(z)) => {
                lemma_lex_lt_transitive(x, y, z);
            },
            (TypeView::FunctionRef(x), TypeView::FunctionRef(y), TypeView::FunctionRef(z)) => {
                lemma_lex_lt_transitive(x, y, z);
            },
            _ => {},
        }
    }
}

proof fn lemma_members_transitive(xs: Seq<TypeView>, ys: Seq<TypeView>, zs: Seq<TypeView>, i: int)
    requires
        0 <= i,
        members_lt(xs, ys, i),
        members_lt(ys, zs, i),
    ensures
        members_lt(xs, zs, i),
    decreases xs, xs.len() - i,
{
    if i < xs.len() {
        if xs[i] == ys[i] && ys[i] == zs[i] {
            lemma_members_transitive(xs, ys, zs, i + 1);
        } else if xs[i] != ys[i] && ys[i] != zs[i] {
            lemma_type_transitive(xs[i], ys[i], zs[i]);
            lemma_type_asymmetric(xs[i], zs[i]);
        }
    }
}

/// Every member comes before the members after it.
pub open spec fn strictly_ascending(s: Seq<TypeView>) -> bool {
    forall|i: int, j: int| 0 <= i < j < s.len() ==> type_lt(#[trigger] s[i], #[trigger] s[j])
}

/// The position at which a type is added lies within the sequence or at its
/// end; every member before it comes before the type, and the member at it
/// does not.
pub proof fn lemma_member_position(s: Seq<TypeView>, t: TypeView)
    ensures
        0 <= member_position(s, t) <= s.len(),
        forall|i: int| 0 <= i < member_position(s, t) ==> type_lt(#[trigger] s[i], t),
        member_position(s, t) < s.len() ==> !type_lt(s[member_position(s, t)], t),
    decreases s.len(),
{
    if s.len() > 0 && type_lt(s[0], t) {
        lemma_member_position(s.drop_first(), t);
        assert forall|i: int| 0 <= i < member_position(s, t) implies type_lt(
            #[trigger] s[i],
            t,
        ) by {
            if i > 0 {
                assert(s[i] == s.drop_first()[i - 1]);
            }
        }
    }
}

/// Adding a type to members in ascending order leaves them in ascending order,
/// with the type among them and nothing else new.
pub proof fn lemma_with_type(s: Seq<TypeView>, t: TypeView)
    requires
        strictly_ascending(s),
    ensures
        strictly_ascending(with_type(s, t)),
        forall|x: TypeView| #[trigger] with_type(s, t).contains(x) <==> (s.contains(x) || x == t),
{
    let p = member_position(s, t);
    lemma_member_position(s, t);
    let r = with_type(s, t);
    if p < s.len() && s[p] == t {
        assert forall|x: TypeView| #[trigger] r.contains(x) <==> (s.contains(x) || x == t) by {
            if x == t {
                assert(s[p] == x);
            }
        }
    } else {
        assert(r == s.insert(p, t));
        assert forall|i: int, j: int| 0 <= i < j < r.len() implies type_lt(
            #[trigger] r[i],
            #[trigger] r[j],
        ) by {
            if j == p {
                assert(r[i] == s[i]);
            } else if i == p {
                assert(r[j] == s[j - 1]);
                lemma_type_total(s[p], t);
                if j - 1 > p {
                    assert(type_lt(s[p], s[j - 1]));
                    lemma_type_transitive(t, s[p], s[j - 1]);
                }
            } else {
                let i0 = if i < p {
                    i
                } else {
                    i - 1
                };
                let j0 = if j < p {
                    j
                } else {
                    j - 1
                };
                assert(r[i] == s[i0]);
                assert(r[j] == s[j0]);
            }
        }
        assert forall|x: TypeView| #[trigger] r.contains(x) <==> (s.contains(x) || x == t) by {
            if r.contains(x) {
                let k = choose|k: int| 0 <= k < r.len() && r[k] == x;
                if k < p {
                    assert(s[k] == x);
                } else if k > p {
                    assert(s[k - 1] == x);
                }
            }
            if s.contains(x) {
                let k = choose|k: int| 0 <= k < s.len() && s[k] == x;
                if k < p {
                    assert(r[k] == x);
                } else {
                    assert(r[k + 1] == x);
                }
            }
            if x == t {
                assert(r[p] == x);
            }
        }
    }
}

/// The canonical members of some types are the types themselves, in ascending
/// order and each once.
pub proof fn lemma_canonical(ts: Seq<TypeView>)
    ensures
        strictly_ascending(canonical(ts)),
        forall|x: TypeView| #[trigger] canonical(ts).contains(x) <==> ts.contains(x),
        forall|i: int, j: int|
            0 <= i < j < canonical(ts).len() ==> (#[trigger] canonical(ts)[i]) != (
            #[trigger] canonical(ts)[j]),
    decreases ts.len(),
{
    if ts.len() > 0 {
        let rest = canonical(ts.drop_last());
        lemma_canonical(ts.drop_last());
        lemma_with_type(rest, ts.last());
        assert forall|x: TypeView| #[trigger] canonical(ts).contains(x) <==> ts.contains(x) by {
            if ts.contains(x) {
                let k = choose|k: int| 0 <= k < ts.len() && ts[k] == x;
                if k < ts.len() - 1 {
                    assert(ts.drop_last()[k] == x);
                    assert(ts.drop_last().contains(x));
                }
            }
            if ts.drop_last().contains(x) {
                let k = choose|k: int| 0 <= k < ts.drop_last().len() && ts.drop_last()[k] == x;
                assert(ts[k] == x);
            }
            if x == ts.last() {
                assert(ts[ts.len() - 1] == x);
            }
        }
    }
    assert forall|i: int, j: int| 0 <= i < j < canonical(ts).len() implies (#[trigger] canonical(
        ts,
    )[i]) != (#[trigger] canonical(ts)[j]) by {
        lemma_type_asymmetric(canonical(ts)[i], canonical(ts)[j]);
    }
}

/// Two sequences in ascending order that hold the same types are the same.
pub proof fn lemma_ascending_unique(a: Seq<TypeView>, b: Seq<TypeView>)
    requires
        strictly_ascending(a),
        strictly_ascending(b),
        forall|x: TypeView| a.contains(x) <==> b.contains(x),
    ensures
        a == b,
    decreases a.len(),
{
    if a.len() == 0 {
        if b.len() > 0 {
            assert(b.contains(b[0]));
        }
        assert(a =~= b);
    } else {
        assert(a.contains(a[0]));
        assert(b.contains(a[0]));
        let k = choose|k: int| 0 <= k < b.len() && b[k] == a[0];
        assert(b.contains(b[0]));
        let m = choose|m: int| 0 <= m < a.len() && a[m] == b[0];
        if k > 0 {
            assert(type_lt(b[0], b[k]));
            if m > 0 {
                assert(type_lt(a[0], a[m]));
                lemma_type_asymmetric(b[0], b[k]);
            } else {
                lemma_type_asymmetric(b[0], b[k]);
            }
        }
        assert(a[0] == b[0]);
        let ta = a.drop_first();
        let tb = b.drop_first();
        assert forall|i: int, j: int| 0 <= i < j < ta.len() implies type_lt(
            #[trigger] ta[i],
            #[trigger] ta[j],
        ) by {
            assert(ta[i] == a[i + 1]);
            assert(ta[j] == a[j + 1]);
        }
        assert forall|i: int, j: int| 0 <= i < j < tb.len() implies type_lt(
            #[trigger] tb[i],
            #[trigger] tb[j],
        ) by {
            assert(tb[i] == b[i + 1]);
            assert(tb[j] == b[j + 1]);
        }
        assert forall|x: TypeView| ta.contains(x) <==> tb.contains(x) by {
            if ta.contains(x) {
                let i = choose|i: int| 0 <= i < ta.len() && ta[i] == x;
                assert(a[i + 1] == x);
                assert(a.contains(x));
                assert(type_lt(a[0], a[i + 1]));
                lemma_type_asymmetric(a[0], x);
                let j = choose|j: int| 0 <= j < b.len() && b[j] == x;
                assert(j > 0);
                assert(tb[j - 1] == x);
            }
            if tb.contains(x) {
                let i = choose|i: int| 0 <= i < tb.len() && tb[i] == x;
                assert(b[i + 1] == x);
                assert(b.contains(x));
                assert(type_lt(b[0], b[i + 1]));
                lemma_type_asymmetric(b[0], x);
                let j = choose|j: int| 0 <= j < a.len() && a[j] == x;
                assert(j > 0);
                assert(ta[j - 1] == x);
            }
        }
        lemma_ascending_unique(ta, tb);
        assert(a =~= seq![a[0]] + ta);
        assert(b =~= seq![b[0]] + tb);
    }
}

/// The canonical members do not depend on the order or the repetition of the
/// types: types that are the same as sets have the same canonical members.
pub proof fn lemma_canonical_of_same_types(a: Seq<TypeView>, b: Seq<TypeView>)
    requires
        forall|x: TypeView| a.contains(x) <==> b.contains(x),
    ensures
        canonical(a) == canonical(b),
{
    lemma_canonical(a);
    lemma_canonical(b);
    assert forall|x: TypeView| canonical(a).contains(x) <==> canonical(b).contains(x) by {
        assert(canonical(a).contains(x) <==> a.contains(x));
        assert(canonical(b).contains(x) <==> b.contains(x));
    }
    lemma_ascending_unique(canonical(a), canonical(b));
}

/// The members of a merged union are in ascending order, each once, and they
/// are the alternatives, with the members of unions in place of the unions.
pub proof fn lemma_merged_union(ts: Seq<TypeView>)
    requires
        merged(ts) is Union,
        canonical(flatten_members(ts)).len() != 1,
    ensures
        strictly_ascending(merged(ts)->Union_0),
        forall|x: TypeView| #[trigger]
            merged(ts)->Union_0.contains(x) <==> flatten_members(ts).contains(x),
{
    lemma_canonical(flatten_members(ts));
}

/// Merging does not depend on the order of the alternatives: alternatives that
/// are the same as sets, once unions are replaced by their members, merge to
/// the same type.
pub proof fn lemma_merged_of_same_types(a: Seq<TypeView>, b: Seq<TypeView>)
    requires
        forall|x: TypeView| flatten_members(a).contains(x) <==> flatten_members(b).contains(x),
    ensures
        merged(a) == merged(b),
{
    lemma_canonical_of_same_types(flatten_members(a), flatten_members(b));
}

} // verus!
