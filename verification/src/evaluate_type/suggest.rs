//! Suggestions of known names for a name that is not known.
//!
//! Candidates are ranked by their edit distance to the name: the least number
//! of insertions, deletions and replacements of single characters that turns
//! one into the other. Candidates farther than [`THRESHOLD`] are left out, and
//! candidates at the same distance rank in the order in which they were given.
use vstd::prelude::*;
use crate::seqs::views;
use crate::sorting::sort_by_name;
use crate::sorting::stable_sort;
use crate::text::chars_of;
use crate::text::string_views;

verus! {

/// The greatest distance at which a candidate is still suggested.
pub const THRESHOLD: usize = 20;

/// How many names a diagnostic suggests at most.
pub const MAX_SUGGESTIONS: usize = 3;

/// The greatest distance at which a candidate counts as a close match.
pub const CLOSE_DISTANCE: usize = 2;

/// The smallest of three integers.
pub open spec fn least(x: int, y: int, z: int) -> int {
    if x <= y && x <= z {
        x
    } else if y <= z {
        y
    } else {
        z
    }
}

/// What it costs to put one character in the place of another: nothing if
/// they are the same, one otherwise.
pub open spec fn replacement_cost(same: bool) -> int {
    if same {
        0
    } else {
        1
    }
}

/// The edit distance between the first `i` characters of `a` and the first `j`
/// characters of `b`.
pub open spec fn prefix_distance(a: Seq<char>, b: Seq<char>, i: int, j: int) -> int
    decreases
            if i < 0 {
                0
            } else {
                i
            } + if j < 0 {
                0
            } else {
                j
            },
{
    if i <= 0 {
        if j <= 0 {
            0
        } else {
            j
        }
    } else if j <= 0 {
        i
    } else {
        least(
            prefix_distance(a, b, i - 1, j) + 1,
            prefix_distance(a, b, i, j - 1) + 1,
            prefix_distance(a, b, i - 1, j - 1) + replacement_cost(a[i - 1] == b[j - 1]),
        )
    }
}

/// The edit distance between two texts.
pub open spec fn edit_distance(a: Seq<char>, b: Seq<char>) -> int {
    prefix_distance(a, b, a.len() as int, b.len() as int)
}

/// A distance, or one more than the threshold if it is greater than that.
pub open spec fn capped(d: int) -> int {
    if d > THRESHOLD {
        THRESHOLD + 1
    } else {
        d
    }
}

/// A distance is never negative.
pub proof fn lemma_distance_not_negative(a: Seq<char>, b: Seq<char>, i: int, j: int)
    ensures
        prefix_distance(a, b, i, j) >= 0,
    decreases
            if i < 0 {
                0
            } else {
                i
            } + if j < 0 {
                0
            } else {
                j
            },
{
    if i > 0 && j > 0 {
        lemma_distance_not_negative(a, b, i - 1, j);
        lemma_distance_not_negative(a, b, i, j - 1);
        lemma_distance_not_negative(a, b, i - 1, j - 1);
    }
}

/// Two texts are at least as far apart as their lengths differ.
pub proof fn lemma_distance_at_least_gap(a: Seq<char>, b: Seq<char>, i: int, j: int)
    requires
        0 <= i,
        0 <= j,
    ensures
        prefix_distance(a, b, i, j) >= i - j,
        prefix_distance(a, b, i, j) >= j - i,
    decreases i + j,
{
    if i > 0 && j > 0 {
        lemma_distance_at_least_gap(a, b, i - 1, j);
        lemma_distance_at_least_gap(a, b, i, j - 1);
        lemma_distance_at_least_gap(a, b, i - 1, j - 1);
    }
}

/// Two texts that share no character are as far apart as the longer is long.
pub proof fn lemma_distance_without_common(a: Seq<char>, b: Seq<char>, i: int, j: int)
    requires
        0 <= i <= a.len(),
        0 <= j <= b.len(),
        forall|x: int, y: int| 0 <= x < a.len() && 0 <= y < b.len() ==> a[x] != b[y],
    ensures
        prefix_distance(a, b, i, j) == if i >= j {
            i
        } else {
            j
        },
    decreases i + j,
{
    if i > 0 && j > 0 {
        lemma_distance_without_common(a, b, i - 1, j);
        lemma_distance_without_common(a, b, i, j - 1);
        lemma_distance_without_common(a, b, i - 1, j - 1);
        assert(a[i - 1] != b[j - 1]);
    }
}

fn capped_step(up: usize, left: usize, diagonal: usize, equal: bool) -> (r: usize)
    requires
        up <= THRESHOLD + 1,
        left <= THRESHOLD + 1,
        diagonal <= THRESHOLD + 1,
    ensures
        r <= THRESHOLD + 1,
        forall|x: int, y: int, z: int|
            x >= 0 && y >= 0 && z >= 0 && up == capped(x) && left == capped(y) && diagonal
                == capped(z) ==> r == capped(
                #[trigger] least(x + 1, y + 1, z + replacement_cost(equal)),
            ),
{
    let third: usize = if equal {
        diagonal
    } else {
        diagonal + 1
    };
    let mut best: usize = up + 1;
    if left + 1 < best {
        best = left + 1;
    }
    if third < best {
        best = third;
    }
    if best > THRESHOLD {
        THRESHOLD + 1
    } else {
        best
    }
}

/// The edit distance between two texts, or one more than the threshold if the
/// distance is greater than that.
pub fn capped_distance(a: &Vec<char>, b: &Vec<char>) -> (r: usize)
    ensures
        r == capped(edit_distance(a@, b@)),
        r <= THRESHOLD + 1,
{
    let n = a.len();
    let m = b.len();
    let mut prev: Vec<usize> = Vec::new();
    prev.push(0);
    let mut j: usize = 0;
    while j < m
        invariant
            j <= m,
            prev@.len() == j + 1,
            forall|k: int|
                0 <= k <= j ==> (#[trigger] prev@[k]) == capped(prefix_distance(a@, b@, 0, k)),
        decreases m - j,
    {
        j += 1;
        prev.push(if j > THRESHOLD { THRESHOLD + 1 } else { j });
    }
    let mut i: usize = 0;
    while i < n
        invariant
            n == a@.len(),
            m == b@.len(),
            i <= n,
            prev@.len() == m + 1,
            forall|k: int|
                0 <= k <= m ==> (#[trigger] prev@[k]) == capped(
                    prefix_distance(a@, b@, i as int, k),
                ),
        decreases n - i,
    {
        let mut cur: Vec<usize> = Vec::new();
        cur.push(if i + 1 > THRESHOLD { THRESHOLD + 1 } else { i + 1 });
        let mut k: usize = 0;
        while k < m
            invariant
                n == a@.len(),
                m == b@.len(),
                i < n,
                k <= m,
                prev@.len() == m + 1,
                cur@.len() == k + 1,
                forall|c: int|
                    0 <= c <= m ==> (#[trigger] prev@[c]) == capped(
                        prefix_distance(a@, b@, i as int, c),
                    ),
                forall|c: int|
                    0 <= c <= k ==> (#[trigger] cur@[c]) == capped(
                        prefix_distance(a@, b@, i + 1, c),
                    ),
            decreases m - k,
        {
            proof {
                lemma_distance_not_negative(a@, b@, i as int, k + 1);
                lemma_distance_not_negative(a@, b@, i + 1, k as int);
                lemma_distance_not_negative(a@, b@, i as int, k as int);
            }
            let up = prev[k + 1];
            let left = cur[k];
            let diagonal = prev[k];
            let equal = a[i] == b[k];
            let next = capped_step(up, left, diagonal, equal);
            assert(next == capped(prefix_distance(a@, b@, i + 1, k + 1))) by {
                let x = prefix_distance(a@, b@, i as int, k + 1);
                let y = prefix_distance(a@, b@, i + 1, k as int);
                let z = prefix_distance(a@, b@, i as int, k as int);
                assert(prefix_distance(a@, b@, i + 1, k + 1) == least(
                    x + 1,
                    y + 1,
                    z + replacement_cost(equal),
                ));
            }
            cur.push(next);
            k += 1;
        }
        prev = cur;
        i += 1;
    }
    prev[m]
}

/// The position after the last of the ranked names that is not farther from
/// the target than `distance`.
pub open spec fn rank_position(ranked: Seq<Seq<char>>, target: Seq<char>, distance: int) -> int
    decreases ranked.len(),
{
    if ranked.len() == 0 {
        0
    } else if capped(edit_distance(ranked[0], target)) > distance {
        0
    } else {
        1 + rank_position(ranked.drop_first(), target, distance)
    }
}

/// The candidates within the threshold, nearest first; candidates at the same
/// distance keep the order in which they were given.
pub open spec fn ranked(candidates: Seq<Seq<char>>, target: Seq<char>) -> Seq<Seq<char>>
    decreases candidates.len(),
{
    if candidates.len() == 0 {
        Seq::empty()
    } else {
        let rest = ranked(candidates.drop_last(), target);
        let d = capped(edit_distance(candidates.last(), target));
        if d <= THRESHOLD {
            rest.insert(rank_position(rest, target, d), candidates.last())
        } else {
            rest
        }
    }
}

/// The first `max` of the ranked candidates, or all of them if there are fewer.
pub open spec fn nearest(candidates: Seq<Seq<char>>, target: Seq<char>, max: int) -> Seq<
    Seq<char>,
> {
    let r = ranked(candidates, target);
    if 0 <= max < r.len() {
        r.take(max)
    } else {
        r
    }
}

/// The names to suggest for a target: the three nearest candidates, in
/// lexicographic order.
pub open spec fn suggested(candidates: Seq<Seq<char>>, target: Seq<char>) -> Seq<Seq<char>> {
    stable_sort::<String>(nearest(candidates, target, MAX_SUGGESTIONS as int))
}

/// The candidates that are close matches of the target: those within
/// [`CLOSE_DISTANCE`] of it, in the order in which they were given.
pub open spec fn close_matches(candidates: Seq<Seq<char>>, target: Seq<char>) -> Seq<Seq<char>>
    decreases candidates.len(),
{
    if candidates.len() == 0 {
        Seq::empty()
    } else {
        let rest = close_matches(candidates.drop_last(), target);
        if capped(edit_distance(candidates.last(), target)) <= CLOSE_DISTANCE {
            rest.push(candidates.last())
        } else {
            rest
        }
    }
}

/// Where no candidate is a close match of the target, there are no close
/// matches.
pub proof fn lemma_no_close_matches(candidates: Seq<Seq<char>>, target: Seq<char>)
    requires
        forall|i: int|
            0 <= i < candidates.len() ==> edit_distance(#[trigger] candidates[i], target)
                > CLOSE_DISTANCE,
    ensures
        close_matches(candidates, target).len() == 0,
    decreases candidates.len(),
{
    if candidates.len() > 0 {
        assert forall|i: int| 0 <= i < candidates.drop_last().len() implies edit_distance(
            #[trigger] candidates.drop_last()[i],
            target,
        ) > CLOSE_DISTANCE by {
            assert(candidates.drop_last()[i] == candidates[i]);
        }
        lemma_no_close_matches(candidates.drop_last(), target);
        assert(edit_distance(candidates[candidates.len() - 1], target) > CLOSE_DISTANCE);
    }
}

/// The candidates that are close matches of the target.
pub fn find_close_matches(target: &str, candidates: &Vec<String>) -> (r: Vec<String>)
    ensures
        string_views(r@) == close_matches(string_views(candidates@), target@),
{
    let goal = chars_of(target);
    let ghost given = string_views(candidates@);
    let mut out: Vec<String> = Vec::new();
    let mut i: usize = 0;
    assert(given.take(0) =~= Seq::empty());
    assert(string_views(out@) =~= Seq::empty());
    while i < candidates.len()
        invariant
            i <= candidates.len(),
            goal@ == target@,
            given == string_views(candidates@),
            string_views(out@) == close_matches(given.take(i as int), target@),
        decreases candidates.len() - i,
    {
        let ghost before = out@;
        proof {
            assert(given.take(i + 1).drop_last() =~= given.take(i as int));
            assert(given.take(i + 1).last() == candidates@[i as int]@);
        }
        let letters = chars_of(candidates[i].as_str());
        if capped_distance(&letters, &goal) <= CLOSE_DISTANCE {
            out.push(candidates[i].clone());
            assert(string_views(out@) =~= string_views(before).push(candidates@[i as int]@));
        }
        i += 1;
    }
    assert(given.take(candidates.len() as int) =~= given);
    out
}

/// The rank position lies within the ranked names or at their end; the names
/// before it are not farther from the target than `distance`, and the name at
/// it is.
pub proof fn lemma_rank_position(ranked: Seq<Seq<char>>, target: Seq<char>, distance: int)
    ensures
        0 <= rank_position(ranked, target, distance) <= ranked.len(),
        forall|i: int|
            0 <= i < rank_position(ranked, target, distance) ==> capped(
                edit_distance(#[trigger] ranked[i], target),
            ) <= distance,
        rank_position(ranked, target, distance) < ranked.len() ==> capped(
            edit_distance(ranked[rank_position(ranked, target, distance)], target),
        ) > distance,
    decreases ranked.len(),
{
    if ranked.len() > 0 && capped(edit_distance(ranked[0], target)) <= distance {
        lemma_rank_position(ranked.drop_first(), target, distance);
        assert forall|i: int| 0 <= i < rank_position(ranked, target, distance) implies capped(
            edit_distance(#[trigger] ranked[i], target),
        ) <= distance by {
            if i > 0 {
                assert(ranked[i] == ranked.drop_first()[i - 1]);
            }
        }
    }
}

/// The ranked names are the candidates within the threshold, and no name
/// comes before a nearer one.
pub proof fn lemma_ranked(candidates: Seq<Seq<char>>, target: Seq<char>)
    ensures
        forall|x: Seq<char>| #[trigger]
            ranked(candidates, target).contains(x) <==> candidates.contains(x) && capped(
                edit_distance(x, target),
            ) <= THRESHOLD,
        forall|i: int, j: int|
            0 <= i < j < ranked(candidates, target).len() ==> capped(
                edit_distance(#[trigger] ranked(candidates, target)[i], target),
            ) <= capped(edit_distance(#[trigger] ranked(candidates, target)[j], target)),
        ranked(candidates, target).len() <= candidates.len(),
    decreases candidates.len(),
{
    if candidates.len() > 0 {
        let earlier = candidates.drop_last();
        let rest = ranked(earlier, target);
        let last = candidates.last();
        let d = capped(edit_distance(last, target));
        lemma_ranked(earlier, target);
        let all = ranked(candidates, target);
        if d <= THRESHOLD {
            let p = rank_position(rest, target, d);
            lemma_rank_position(rest, target, d);
            assert(all == rest.insert(p, last));
            assert forall|x: Seq<char>| #[trigger] all.contains(x) <==> candidates.contains(x)
                && capped(edit_distance(x, target)) <= THRESHOLD by {
                if all.contains(x) {
                    let k = choose|k: int| 0 <= k < all.len() && all[k] == x;
                    if k == p {
                        assert(candidates[candidates.len() - 1] == x);
                    } else {
                        let k0 = if k < p {
                            k
                        } else {
                            k - 1
                        };
                        assert(rest[k0] == x);
                        assert(rest.contains(x));
                        let i = choose|i: int| 0 <= i < earlier.len() && earlier[i] == x;
                        assert(candidates[i] == x);
                    }
                }
                if candidates.contains(x) && capped(edit_distance(x, target)) <= THRESHOLD {
                    let i = choose|i: int| 0 <= i < candidates.len() && candidates[i] == x;
                    if i == candidates.len() - 1 {
                        assert(all[p] == x);
                    } else {
                        assert(earlier[i] == x);
                        assert(earlier.contains(x));
                        assert(rest.contains(x));
                        let k = choose|k: int| 0 <= k < rest.len() && rest[k] == x;
                        if k < p {
                            assert(all[k] == x);
                        } else {
                            assert(all[k + 1] == x);
                        }
                    }
                }
            }
            assert forall|i: int, j: int| 0 <= i < j < all.len() implies capped(
                edit_distance(#[trigger] all[i], target),
            ) <= capped(edit_distance(#[trigger] all[j], target)) by {
                let i0 = if i < p {
                    i
                } else {
                    i - 1
                };
                let j0 = if j < p {
                    j
                } else {
                    j - 1
                };
                if i == p {
                    assert(all[j] == rest[j0]);
                    if j0 > p {
                        assert(capped(edit_distance(rest[p], target)) <= capped(
                            edit_distance(rest[j0], target),
                        ));
                    }
                } else if j == p {
                    assert(all[i] == rest[i0]);
                } else {
                    assert(all[i] == rest[i0]);
                    assert(all[j] == rest[j0]);
                }
            }
        } else {
            assert forall|x: Seq<char>| #[trigger] all.contains(x) <==> candidates.contains(x)
                && capped(edit_distance(x, target)) <= THRESHOLD by {
                if all.contains(x) {
                    let i = choose|i: int| 0 <= i < earlier.len() && earlier[i] == x;
                    assert(candidates[i] == x);
                }
                if candidates.contains(x) && capped(edit_distance(x, target)) <= THRESHOLD {
                    let i = choose|i: int| 0 <= i < candidates.len() && candidates[i] == x;
                    assert(i < candidates.len() - 1);
                    assert(earlier[i] == x);
                    assert(earlier.contains(x));
                }
            }
        }
    } else {
        assert forall|x: Seq<char>| #[trigger]
            ranked(candidates, target).contains(x) <==> candidates.contains(x) && capped(
                edit_distance(x, target),
            ) <= THRESHOLD by {}
    }
}

fn position_in_rank(distances: &Vec<usize>, Ghost(names): Ghost<Seq<Seq<char>>>, Ghost(
    target,
): Ghost<Seq<char>>, distance: usize) -> (p: usize)
    requires
        distances@.len() == names.len(),
        forall|k: int|
            0 <= k < names.len() ==> (#[trigger] distances@[k]) == capped(
                edit_distance(names[k], target),
            ),
    ensures
        p == rank_position(names, target, distance as int),
        p <= names.len(),
{
    let mut p: usize = 0;
    assert(names.skip(0) =~= names);
    while p < distances.len()
        invariant
            p <= distances.len(),
            distances@.len() == names.len(),
            forall|k: int|
                0 <= k < names.len() ==> (#[trigger] distances@[k]) == capped(
                    edit_distance(names[k], target),
                ),
            rank_position(names, target, distance as int) == p + rank_position(
                names.skip(p as int),
                target,
                distance as int,
            ),
        decreases distances.len() - p,
    {
        assert(names.skip(p as int)[0] == names[p as int]);
        if distances[p] > distance {
            return p;
        }
        assert(names.skip(p as int).drop_first() =~= names.skip(p + 1));
        p += 1;
    }
    assert(names.skip(p as int).len() == 0);
    p
}

/// Ranks the candidates by their distance to the target and returns the
/// nearest, at most `max_return` of them.
pub fn sort_by_match(target: &str, candidates: &Vec<String>, max_return: usize) -> (r: Vec<String>)
    ensures
        string_views(r@) == nearest(string_views(candidates@), target@, max_return as int),
{
    let goal = chars_of(target);
    let ghost given = string_views(candidates@);
    let mut names: Vec<String> = Vec::new();
    let mut distances: Vec<usize> = Vec::new();
    let mut i: usize = 0;
    assert(given.take(0) =~= Seq::empty());
    assert(string_views(names@) =~= Seq::empty());
    while i < candidates.len()
        invariant
            i <= candidates.len(),
            goal@ == target@,
            given == string_views(candidates@),
            string_views(names@) == ranked(given.take(i as int), target@),
            distances@.len() == names@.len(),
            forall|k: int|
                0 <= k < names@.len() ==> (#[trigger] distances@[k]) == capped(
                    edit_distance(string_views(names@)[k], target@),
                ),
        decreases candidates.len() - i,
    {
        proof {
            assert(given.take(i + 1).drop_last() =~= given.take(i as int));
            assert(given.take(i + 1).last() == candidates@[i as int]@);
        }
        let letters = chars_of(candidates[i].as_str());
        let d = capped_distance(&letters, &goal);
        if d <= THRESHOLD {
            let ghost before = names@;
            let ghost before_d = distances@;
            let p = position_in_rank(&distances, Ghost(string_views(names@)), Ghost(target@), d);
            names.insert(p, candidates[i].clone());
            distances.insert(p, d);
            assert(string_views(names@) =~= string_views(before).insert(
                p as int,
                candidates@[i as int]@,
            ));
            assert forall|k: int| 0 <= k < names@.len() implies (#[trigger] distances@[k])
                == capped(edit_distance(string_views(names@)[k], target@)) by {
                if k < p {
                    assert(distances@[k] == before_d[k]);
                    assert(string_views(names@)[k] == string_views(before)[k]);
                } else if k > p {
                    assert(distances@[k] == before_d[k - 1]);
                    assert(string_views(names@)[k] == string_views(before)[k - 1]);
                }
            }
        }
        i += 1;
    }
    assert(given.take(candidates.len() as int) =~= given);
    if max_return < names.len() {
        let ghost all = names@;
        names.truncate(max_return);
        assert(string_views(names@) =~= string_views(all).take(max_return as int));
    }
    names
}

/// The names to suggest for a name that is not known: the three candidates
/// nearest to it, in lexicographic order.
pub fn suggest(target: &str, candidates: &Vec<String>) -> (r: Vec<String>)
    ensures
        string_views(r@) == suggested(string_views(candidates@), target@),
{
    let close = sort_by_match(target, candidates, MAX_SUGGESTIONS);
    let ghost unsorted = string_views(close@);
    assert(views(close@) =~= unsorted);
    let sorted = sort_by_name(close);
    assert(views(sorted@) =~= string_views(sorted@));
    sorted
}

} // verus!
