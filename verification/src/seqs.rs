//! Small vocabulary on sequences that the contracts of the library share.
use vstd::prelude::*;

verus! {

/// The models of the elements of a sequence, in order.
pub open spec fn views<T: View>(s: Seq<T>) -> Seq<T::V> {
    Seq::new(s.len(), |i: int| s[i]@)
}

/// The concatenation of a sequence of sequences, in order.
pub open spec fn concat_all<A>(parts: Seq<Seq<A>>) -> Seq<A>
    decreases parts.len(),
{
    if parts.len() == 0 {
        Seq::empty()
    } else {
        concat_all(parts.drop_last()) + parts.last()
    }
}

/// Keeps the first occurrence of every element and drops the later ones.
pub open spec fn dedup<A>(s: Seq<A>) -> Seq<A>
    decreases s.len(),
{
    if s.len() == 0 {
        Seq::empty()
    } else {
        let d = dedup(s.drop_last());
        if d.contains(s.last()) {
            d
        } else {
            d.push(s.last())
        }
    }
}

/// All the successes of a sequence of results, or else its first failure.
pub open spec fn collect_results<V, E>(rs: Seq<Result<V, E>>) -> Result<Seq<V>, E>
    decreases rs.len(),
{
    if rs.len() == 0 {
        Ok(Seq::empty())
    } else {
        match collect_results(rs.drop_last()) {
            Err(e) => Err(e),
            Ok(vs) => match rs.last() {
                Err(e) => Err(e),
                Ok(v) => Ok(vs.push(v)),
            },
        }
    }
}

/// Collecting a prefix that is one longer extends the collection of the prefix
/// by the result at its end.
pub proof fn lemma_collect_step<V, E>(rs: Seq<Result<V, E>>, i: int)
    requires
        0 <= i < rs.len(),
    ensures
        collect_results(rs.take(i + 1)) == match collect_results(rs.take(i)) {
            Err(e) => Err(e),
            Ok(vs) => match rs[i] {
                Err(e) => Err(e),
                Ok(v) => Ok(vs.push(v)),
            },
        },
{
    assert(rs.take(i + 1).drop_last() =~= rs.take(i));
    assert(rs.take(i + 1).last() == rs[i]);
}

/// Once a prefix fails to collect, the whole fails in the same way.
pub proof fn lemma_collect_prefix_error<V, E>(rs: Seq<Result<V, E>>, n: int)
    requires
        0 <= n <= rs.len(),
        collect_results(rs.take(n)) is Err,
    ensures
        collect_results(rs) == collect_results(rs.take(n)),
    decreases rs.len() - n,
{
    if n < rs.len() {
        lemma_collect_step(rs, n);
        lemma_collect_prefix_error(rs, n + 1);
    } else {
        assert(rs.take(n) =~= rs);
    }
}

/// A collection succeeds exactly when every result does, and then holds their
/// values in order; otherwise it is the failure at the first failing position.
pub proof fn lemma_collect_results<V, E>(rs: Seq<Result<V, E>>)
    ensures
        match collect_results(rs) {
            Ok(vs) => {
                &&& vs.len() == rs.len()
                &&& forall|i: int| 0 <= i < rs.len() ==> rs[i] == Ok::<V, E>(vs[i])
            },
            Err(e) => exists|i: int|
                {
                    &&& 0 <= i < rs.len()
                    &&& #[trigger] rs[i] == Err::<V, E>(e)
                    &&& forall|j: int| 0 <= j < i ==> rs[j] is Ok
                },
        },
    decreases rs.len(),
{
    if rs.len() > 0 {
        lemma_collect_results(rs.drop_last());
        match collect_results(rs.drop_last()) {
            Err(e) => {
                let i = choose|i: int|
                    {
                        &&& 0 <= i < rs.drop_last().len()
                        &&& #[trigger] rs.drop_last()[i] == Err::<V, E>(e)
                        &&& forall|j: int| 0 <= j < i ==> rs.drop_last()[j] is Ok
                    };
                assert(rs[i] == Err::<V, E>(e));
                assert(forall|j: int| 0 <= j < i ==> rs.drop_last()[j] == rs[j]);
            },
            Ok(vs) => {
                assert(forall|j: int| 0 <= j < rs.len() - 1 ==> rs.drop_last()[j] == rs[j]);
                match rs.last() {
                    Err(e) => {
                        assert(rs[rs.len() - 1] == Err::<V, E>(e));
                    },
                    Ok(v) => {},
                }
            },
        }
    }
}

/// An element is in the concatenation exactly when it is in one of the parts.
pub proof fn lemma_concat_all_contains<A>(parts: Seq<Seq<A>>, x: A)
    ensures
        concat_all(parts).contains(x) <==> exists|i: int|
            0 <= i < parts.len() && (#[trigger] parts[i]).contains(x),
    decreases parts.len(),
{
    if parts.len() > 0 {
        let rest = parts.drop_last();
        lemma_concat_all_contains(rest, x);
        let all = concat_all(parts);
        assert(all == concat_all(rest) + parts.last());
        if all.contains(x) {
            let k = choose|k: int| 0 <= k < all.len() && all[k] == x;
            if k < concat_all(rest).len() {
                assert(concat_all(rest)[k] == x);
                assert(concat_all(rest).contains(x));
                let i = choose|i: int| 0 <= i < rest.len() && (#[trigger] rest[i]).contains(x);
                assert(parts[i] == rest[i]);
            } else {
                assert(parts.last()[k - concat_all(rest).len()] == x);
                assert(parts[parts.len() - 1].contains(x));
            }
        }
        if exists|i: int| 0 <= i < parts.len() && (#[trigger] parts[i]).contains(x) {
            let i = choose|i: int| 0 <= i < parts.len() && (#[trigger] parts[i]).contains(x);
            if i < parts.len() - 1 {
                assert(rest[i] == parts[i]);
                assert(concat_all(rest).contains(x));
                let k = choose|k: int| 0 <= k < concat_all(rest).len() && concat_all(rest)[k] == x;
                assert(all[k] == x);
            } else {
                let k = choose|k: int| 0 <= k < parts.last().len() && parts.last()[k] == x;
                assert(all[concat_all(rest).len() + k] == x);
            }
        }
    }
}

/// What is left after dropping repetitions holds every element of the sequence
/// exactly once.
pub proof fn lemma_dedup<A>(s: Seq<A>)
    ensures
        forall|x: A| #[trigger] dedup(s).contains(x) <==> s.contains(x),
        forall|i: int, j: int|
            0 <= i < j < dedup(s).len() ==> (#[trigger] dedup(s)[i]) != (#[trigger] dedup(s)[j]),
    decreases s.len(),
{
    if s.len() > 0 {
        let rest = s.drop_last();
        let d = dedup(rest);
        lemma_dedup(rest);
        assert forall|x: A| #[trigger] dedup(s).contains(x) <==> s.contains(x) by {
            if dedup(s).contains(x) {
                let k = choose|k: int| 0 <= k < dedup(s).len() && dedup(s)[k] == x;
                if d.contains(s.last()) || k < d.len() {
                    assert(d.contains(x)) by {
                        if !d.contains(s.last()) {
                            assert(d[k] == x);
                        }
                    }
                    assert(rest.contains(x));
                    let i = choose|i: int| 0 <= i < rest.len() && rest[i] == x;
                    assert(s[i] == x);
                } else {
                    assert(s[s.len() - 1] == x);
                }
            }
            if s.contains(x) {
                let i = choose|i: int| 0 <= i < s.len() && s[i] == x;
                if i < s.len() - 1 {
                    assert(rest[i] == x);
                    assert(rest.contains(x));
                    assert(d.contains(x));
                    let k = choose|k: int| 0 <= k < d.len() && d[k] == x;
                    if !d.contains(s.last()) {
                        assert(dedup(s)[k] == x);
                    }
                } else {
                    if !d.contains(s.last()) {
                        assert(dedup(s)[d.len() as int] == x);
                    }
                }
            }
        }
        assert forall|i: int, j: int| 0 <= i < j < dedup(s).len() implies (#[trigger] dedup(
            s,
        )[i]) != (#[trigger] dedup(s)[j]) by {
            if !d.contains(s.last()) {
                assert(dedup(s)[i] == d[i]);
                if j == d.len() {
                    assert(d.contains(d[i]));
                } else {
                    assert(dedup(s)[j] == d[j]);
                }
            }
        }
    } else {
        assert forall|x: A| #[trigger] dedup(s).contains(x) <==> s.contains(x) by {}
    }
}

} // verus!
