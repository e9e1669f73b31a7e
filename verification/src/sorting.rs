//! Ordering of entities by name.
//!
//! Entities are put in lexicographic order of their names by a stable sort:
//! entities of the same name keep the order in which they were given.
use vstd::prelude::*;
use crate::node::Node;
use crate::repr::Class;
use crate::repr::Client;
use crate::repr::Enum;
use crate::repr::Function;
use crate::repr::RetryPolicy;
use crate::repr::TemplateString;
use crate::seqs::views;
use crate::text::lemma_lex_lt_asymmetric;
use crate::text::lemma_lex_lt_total;
use crate::text::lemma_lex_lt_transitive;
use crate::text::lex_lt;
use crate::text::str_lt;

verus! {

/// An entity that is known by a name.
pub trait Named: View {
    /// The name in the model of the entity.
    spec fn name_of(v: Self::V) -> Seq<char>;

    /// The name of the entity.
    fn name_text(&self) -> (r: &String)
        ensures
            r@ == Self::name_of(self@),
    ;
}

impl Named for Node<Enum> {
    open spec fn name_of(v: Self::V) -> Seq<char> {
        v.elem.name
    }

    fn name_text(&self) -> (r: &String) {
        &self.elem.name
    }
}

impl Named for Node<Class> {
    open spec fn name_of(v: Self::V) -> Seq<char> {
        v.elem.name
    }

    fn name_text(&self) -> (r: &String) {
        &self.elem.name
    }
}

impl Named for Node<Function> {
    open spec fn name_of(v: Self::V) -> Seq<char> {
        v.elem.name
    }

    fn name_text(&self) -> (r: &String) {
        &self.elem.name
    }
}

impl Named for Node<Client> {
    open spec fn name_of(v: Self::V) -> Seq<char> {
        v.elem.name
    }

    fn name_text(&self) -> (r: &String) {
        &self.elem.name
    }
}

impl Named for Node<RetryPolicy> {
    open spec fn name_of(v: Self::V) -> Seq<char> {
        v.elem.name
    }

    fn name_text(&self) -> (r: &String) {
        &self.elem.name.0
    }
}

impl Named for Node<TemplateString> {
    open spec fn name_of(v: Self::V) -> Seq<char> {
        v.elem.name
    }

    fn name_text(&self) -> (r: &String) {
        &self.elem.name
    }
}

impl Named for String {
    open spec fn name_of(v: Self::V) -> Seq<char> {
        v
    }

    fn name_text(&self) -> (r: &String) {
        self
    }
}

/// No entity comes before one of a smaller name.
pub open spec fn sorted_by_name<T: Named>(s: Seq<T::V>) -> bool {
    forall|i: int, j: int|
        0 <= i < j < s.len() ==> !lex_lt(T::name_of(#[trigger] s[j]), T::name_of(#[trigger] s[i]))
}

/// The position of the first entity whose name is not smaller than `name`, or
/// the length of the sequence if every name is smaller.
pub open spec fn insert_position<T: Named>(s: Seq<T::V>, name: Seq<char>) -> int
    decreases s.len(),
{
    if s.len() == 0 {
        0
    } else if !lex_lt(T::name_of(s[0]), name) {
        0
    } else {
        1 + insert_position::<T>(s.drop_first(), name)
    }
}

/// The entities in order of name, those of equal names in their given order.
pub open spec fn stable_sort<T: Named>(s: Seq<T::V>) -> Seq<T::V>
    decreases s.len(),
{
    if s.len() == 0 {
        Seq::empty()
    } else {
        let rest = stable_sort::<T>(s.drop_first());
        rest.insert(insert_position::<T>(rest, T::name_of(s[0])), s[0])
    }
}

/// The insert position lies within the sequence or at its end; every entity
/// before it has a smaller name, and the one at it has not.
pub proof fn lemma_insert_position<T: Named>(s: Seq<T::V>, name: Seq<char>)
    ensures
        0 <= insert_position::<T>(s, name) <= s.len(),
        forall|i: int|
            0 <= i < insert_position::<T>(s, name) ==> lex_lt(T::name_of(#[trigger] s[i]), name),
        insert_position::<T>(s, name) < s.len() ==> !lex_lt(
            T::name_of(s[insert_position::<T>(s, name)]),
            name,
        ),
    decreases s.len(),
{
    if s.len() > 0 && lex_lt(T::name_of(s[0]), name) {
        lemma_insert_position::<T>(s.drop_first(), name);
        assert forall|i: int| 0 <= i < insert_position::<T>(s, name) implies lex_lt(
            T::name_of(#[trigger] s[i]),
            name,
        ) by {
            if i > 0 {
                assert(s[i] == s.drop_first()[i - 1]);
            }
        }
    }
}

proof fn lemma_insert_keeps_sorted<T: Named>(s: Seq<T::V>, x: T::V)
    requires
        sorted_by_name::<T>(s),
    ensures
        sorted_by_name::<T>(s.insert(insert_position::<T>(s, T::name_of(x)), x)),
{
    let name = T::name_of(x);
    let p = insert_position::<T>(s, name);
    lemma_insert_position::<T>(s, name);
    let r = s.insert(p, x);
    assert forall|i: int, j: int| 0 <= i < j < r.len() implies !lex_lt(
        T::name_of(#[trigger] r[j]),
        T::name_of(#[trigger] r[i]),
    ) by {
        if j == p {
            // r[i] is an earlier entity, of a smaller name than x
            assert(r[i] == s[i]);
            if lex_lt(name, T::name_of(s[i])) {
                lemma_lex_lt_asymmetric(name, T::name_of(s[i]));
            }
        } else if i == p {
            // r[j] is s[j - 1], at or after the insert position
            assert(r[j] == s[j - 1]);
            let a = T::name_of(s[j - 1]);
            let b = T::name_of(s[p]);
            if lex_lt(a, name) {
                if j - 1 > p {
                    assert(!lex_lt(a, b));
                    lemma_lex_lt_total(a, b);
                    if a != b {
                        lemma_lex_lt_transitive(b, a, name);
                    }
                }
            }
        } else {
            let i0 = if i < p {
                i
            } else {
                i - 1
            };
            let j0 = if j < p {
                j
            } else {
                j - 1
            };
            assert(r[i] == s[i0]);
            assert(r[j] == s[j0]);
        }
    }
}

/// The result of the sort is in order of name.
pub proof fn lemma_stable_sort_sorted<T: Named>(s: Seq<T::V>)
    ensures
        sorted_by_name::<T>(stable_sort::<T>(s)),
    decreases s.len(),
{
    if s.len() > 0 {
        lemma_stable_sort_sorted::<T>(s.drop_first());
        lemma_insert_keeps_sorted::<T>(stable_sort::<T>(s.drop_first()), s[0]);
    }
}

/// The result of the sort holds the same entities as the input, each as often.
pub proof fn lemma_stable_sort_permutes<T: Named>(s: Seq<T::V>)
    ensures
        stable_sort::<T>(s).to_multiset() == s.to_multiset(),
        stable_sort::<T>(s).len() == s.len(),
    decreases s.len(),
{
    broadcast use vstd::seq_lib::group_to_multiset_ensures;

    if s.len() > 0 {
        let rest = stable_sort::<T>(s.drop_first());
        lemma_stable_sort_permutes::<T>(s.drop_first());
        lemma_insert_position::<T>(rest, T::name_of(s[0]));
        vstd::seq_lib::to_multiset_insert(rest, insert_position::<T>(rest, T::name_of(s[0])), s[0]);
        assert(s =~= seq![s[0]] + s.drop_first());
        assert(s =~= s.drop_first().insert(0, s[0]));
        vstd::seq_lib::to_multiset_insert(s.drop_first(), 0, s[0]);
    } else {
        assert(s =~= Seq::empty());
    }
}

/// Sorting leaves a sequence that is in order as it is.
pub proof fn lemma_sorted_is_fixed<T: Named>(s: Seq<T::V>)
    requires
        sorted_by_name::<T>(s),
    ensures
        stable_sort::<T>(s) == s,
    decreases s.len(),
{
    if s.len() > 0 {
        let tail = s.drop_first();
        assert forall|i: int, j: int| 0 <= i < j < tail.len() implies !lex_lt(
            T::name_of(#[trigger] tail[j]),
            T::name_of(#[trigger] tail[i]),
        ) by {
            assert(tail[i] == s[i + 1]);
            assert(tail[j] == s[j + 1]);
        }
        lemma_sorted_is_fixed::<T>(tail);
        if tail.len() > 0 {
            assert(tail[0] == s[1]);
            assert(!lex_lt(T::name_of(s[1]), T::name_of(s[0])));
        }
        assert(tail.insert(0, s[0]) =~= s);
    } else {
        assert(s =~= Seq::empty());
    }
}

/// Sorting is idempotent: sorting what is sorted changes nothing.
pub proof fn lemma_stable_sort_idempotent<T: Named>(s: Seq<T::V>)
    ensures
        stable_sort::<T>(stable_sort::<T>(s)) == stable_sort::<T>(s),
{
    lemma_stable_sort_sorted::<T>(s);
    lemma_sorted_is_fixed::<T>(stable_sort::<T>(s));
}

/// No two entities of the sequence have the same name.
pub open spec fn distinctly_named<T: Named>(s: Seq<T::V>) -> bool {
    forall|i: int, j: int|
        0 <= i < j < s.len() ==> T::name_of(#[trigger] s[i]) != T::name_of(#[trigger] s[j])
}

/// The result of the sort holds exactly the entities of the input.
pub proof fn lemma_stable_sort_members<T: Named>(s: Seq<T::V>)
    ensures
        forall|x: T::V| #[trigger] stable_sort::<T>(s).contains(x) <==> s.contains(x),
    decreases s.len(),
{
    if s.len() > 0 {
        let rest = stable_sort::<T>(s.drop_first());
        let p = insert_position::<T>(rest, T::name_of(s[0]));
        lemma_stable_sort_members::<T>(s.drop_first());
        lemma_insert_position::<T>(rest, T::name_of(s[0]));
        let r = rest.insert(p, s[0]);
        assert forall|x: T::V| #[trigger] r.contains(x) <==> s.contains(x) by {
            if r.contains(x) {
                let k = choose|k: int| 0 <= k < r.len() && r[k] == x;
                if k == p {
                    assert(s[0] == x);
                } else {
                    let k0 = if k < p {
                        k
                    } else {
                        k - 1
                    };
                    assert(rest[k0] == x);
                    assert(rest.contains(x));
                    assert(s.drop_first().contains(x));
                    let i = choose|i: int| 0 <= i < s.drop_first().len() && s.drop_first()[i] == x;
                    assert(s[i + 1] == x);
                }
            }
            if s.contains(x) {
                let i = choose|i: int| 0 <= i < s.len() && s[i] == x;
                if i == 0 {
                    assert(r[p] == x);
                } else {
                    assert(s.drop_first()[i - 1] == x);
                    assert(s.drop_first().contains(x));
                    assert(rest.contains(x));
                    let k = choose|k: int| 0 <= k < rest.len() && rest[k] == x;
                    if k < p {
                        assert(r[k] == x);
                    } else {
                        assert(r[k + 1] == x);
                    }
                }
            }
        }
    }
}

/// Sorting entities of distinct names gives entities of distinct names.
pub proof fn lemma_stable_sort_distinct<T: Named>(s: Seq<T::V>)
    requires
        distinctly_named::<T>(s),
    ensures
        distinctly_named::<T>(stable_sort::<T>(s)),
    decreases s.len(),
{
    if s.len() > 0 {
        let tail = s.drop_first();
        assert forall|i: int, j: int| 0 <= i < j < tail.len() implies T::name_of(
            #[trigger] tail[i],
        ) != T::name_of(#[trigger] tail[j]) by {
            assert(tail[i] == s[i + 1]);
            assert(tail[j] == s[j + 1]);
        }
        lemma_stable_sort_distinct::<T>(tail);
        lemma_stable_sort_members::<T>(tail);
        let rest = stable_sort::<T>(tail);
        let p = insert_position::<T>(rest, T::name_of(s[0]));
        lemma_insert_position::<T>(rest, T::name_of(s[0]));
        let r = rest.insert(p, s[0]);
        assert forall|k: int| 0 <= k < rest.len() implies T::name_of(#[trigger] rest[k])
            != T::name_of(s[0]) by {
            assert(rest.contains(rest[k]));
            assert(tail.contains(rest[k]));
            let i = choose|i: int| 0 <= i < tail.len() && tail[i] == rest[k];
            assert(s[i + 1] == rest[k]);
        }
        assert forall|i: int, j: int| 0 <= i < j < r.len() implies T::name_of(#[trigger] r[i])
            != T::name_of(#[trigger] r[j]) by {
            let i0 = if i < p {
                i
            } else {
                i - 1
            };
            let j0 = if j < p {
                j
            } else {
                j - 1
            };
            if i == p {
                assert(r[j] == rest[j0]);
            } else if j == p {
                assert(r[i] == rest[i0]);
            } else {
                assert(r[i] == rest[i0]);
                assert(r[j] == rest[j0]);
            }
        }
    }
}

/// Two sequences in order of name, each of distinct names, that hold the same
/// entities are the same.
pub proof fn lemma_sorted_unique<T: Named>(a: Seq<T::V>, b: Seq<T::V>)
    requires
        sorted_by_name::<T>(a),
        sorted_by_name::<T>(b),
        distinctly_named::<T>(a),
        distinctly_named::<T>(b),
        forall|x: T::V| a.contains(x) <==> b.contains(x),
    ensures
        a == b,
    decreases a.len(),
{
    if a.len() == 0 {
        if b.len() > 0 {
            assert(b.contains(b[0]));
        }
        assert(a =~= b);
    } else {
        assert(a.contains(a[0]));
        assert(b.contains(a[0]));
        let k = choose|k: int| 0 <= k < b.len() && b[k] == a[0];
        assert(b.contains(b[0]));
        let m = choose|m: int| 0 <= m < a.len() && a[m] == b[0];
        if k > 0 {
            // b[0] is named before a[0], which is b[k], and a[0] before a[m], which is b[0]
            assert(!lex_lt(T::name_of(b[k]), T::name_of(b[0])));
            assert(T::name_of(b[0]) != T::name_of(b[k]));
            lemma_lex_lt_total(T::name_of(b[0]), T::name_of(b[k]));
            if m > 0 {
                assert(!lex_lt(T::name_of(a[m]), T::name_of(a[0])));
            }
        }
        assert(a[0] == b[0]);
        let ta = a.drop_first();
        let tb = b.drop_first();
        assert forall|i: int, j: int| 0 <= i < j < ta.len() implies !lex_lt(
            T::name_of(#[trigger] ta[j]),
            T::name_of(#[trigger] ta[i]),
        ) && T::name_of(ta[i]) != T::name_of(ta[j]) by {
            assert(ta[i] == a[i + 1]);
            assert(ta[j] == a[j + 1]);
        }
        assert forall|i: int, j: int| 0 <= i < j < tb.len() implies !lex_lt(
            T::name_of(#[trigger] tb[j]),
            T::name_of(#[trigger] tb[i]),
        ) && T::name_of(tb[i]) != T::name_of(tb[j]) by {
            assert(tb[i] == b[i + 1]);
            assert(tb[j] == b[j + 1]);
        }
        assert forall|x: T::V| ta.contains(x) <==> tb.contains(x) by {
            if ta.contains(x) {
                let i = choose|i: int| 0 <= i < ta.len() && ta[i] == x;
                assert(a[i + 1] == x);
                assert(a.contains(x));
                assert(T::name_of(a[0]) != T::name_of(a[i + 1]));
                let j = choose|j: int| 0 <= j < b.len() && b[j] == x;
                assert(j > 0);
                assert(tb[j - 1] == x);
            }
            if tb.contains(x) {
                let i = choose|i: int| 0 <= i < tb.len() && tb[i] == x;
                assert(b[i + 1] == x);
                assert(b.contains(x));
                assert(T::name_of(b[0]) != T::name_of(b[i + 1]));
                let j = choose|j: int| 0 <= j < a.len() && a[j] == x;
                assert(j > 0);
                assert(ta[j - 1] == x);
            }
        }
        lemma_sorted_unique::<T>(ta, tb);
        assert(a =~= seq![a[0]] + ta);
        assert(b =~= seq![b[0]] + tb);
    }
}

/// The order of entities of distinct names depends on their names alone: in
/// whatever order the same entities are given, they are sorted the same.
pub proof fn lemma_order_is_by_name<T: Named>(a: Seq<T::V>, b: Seq<T::V>)
    requires
        distinctly_named::<T>(a),
        distinctly_named::<T>(b),
        forall|x: T::V| a.contains(x) <==> b.contains(x),
    ensures
        stable_sort::<T>(a) == stable_sort::<T>(b),
{
    lemma_stable_sort_sorted::<T>(a);
    lemma_stable_sort_sorted::<T>(b);
    lemma_stable_sort_distinct::<T>(a);
    lemma_stable_sort_distinct::<T>(b);
    lemma_stable_sort_members::<T>(a);
    lemma_stable_sort_members::<T>(b);
    assert forall|x: T::V| stable_sort::<T>(a).contains(x) <==> stable_sort::<T>(b).contains(
        x,
    ) by {
        assert(stable_sort::<T>(a).contains(x) <==> a.contains(x));
        assert(stable_sort::<T>(b).contains(x) <==> b.contains(x));
    }
    lemma_sorted_unique::<T>(stable_sort::<T>(a), stable_sort::<T>(b));
}

fn position_for<T: Named>(sorted: &Vec<T>, name: &String) -> (p: usize)
    ensures
        p == insert_position::<T>(views(sorted@), name@),
        p <= sorted@.len(),
{
    let mut p: usize = 0;
    let ghost vs = views(sorted@);
    assert(vs.skip(0) =~= vs);
    while p < sorted.len()
        invariant
            p <= sorted.len(),
            vs == views(sorted@),
            insert_position::<T>(vs, name@) == p + insert_position::<T>(vs.skip(p as int), name@),
        decreases sorted.len() - p,
    {
        assert(vs.skip(p as int)[0] == sorted@[p as int]@);
        if !str_lt(sorted[p].name_text().as_str(), name.as_str()) {
            return p;
        }
        assert(vs.skip(p as int).drop_first() =~= vs.skip(p + 1));
        p += 1;
    }
    assert(vs.skip(p as int).len() == 0);
    p
}

/// Sorts entities by name, keeping entities of equal names in their order.
pub fn sort_by_name<T: Named>(items: Vec<T>) -> (r: Vec<T>)
    ensures
        views(r@) == stable_sort::<T>(views(items@)),
        sorted_by_name::<T>(views(r@)),
        views(r@).to_multiset() == views(items@).to_multiset(),
        r@.len() == items@.len(),
{
    let ghost given = views(items@);
    let mut rest = items;
    let mut out: Vec<T> = Vec::new();
    assert(given.skip(given.len() as int) =~= Seq::empty());
    assert(views(out@) =~= Seq::empty());
    while rest.len() > 0
        invariant
            rest@.len() <= given.len(),
            views(rest@) == given.take(rest@.len() as int),
            views(out@) == stable_sort::<T>(given.skip(rest@.len() as int)),
            out@.len() + rest@.len() == given.len(),
        decreases rest@.len(),
    {
        let ghost n = rest@.len() as int;
        let ghost earlier = rest@;
        let ghost sorted = out@;
        let x = rest.pop().unwrap();
        let p = position_for(&out, x.name_text());
        proof {
            assert(x@ == views(earlier)[n - 1]);
            assert(given.skip(n - 1)[0] == x@);
            assert(given.skip(n - 1).drop_first() =~= given.skip(n));
            assert(views(rest@) =~= given.take(n - 1));
        }
        out.insert(p, x);
        assert(views(out@) =~= views(sorted).insert(p as int, x@));
    }
    proof {
        assert(given.skip(0) =~= given);
        lemma_stable_sort_sorted::<T>(given);
        lemma_stable_sort_permutes::<T>(given);
    }
    out
}

} // verus!
