//! Directed graphs over the nodes `0..n`, held as adjacency matrices, with
//! reachability and the components that lie on cycles.
//!
//! A matrix of `n` rows is a graph of `n` nodes, whatever the lengths of its
//! rows: there is an edge from `u` to `v` where row `u` holds `true` at `v`.
use vstd::prelude::*;

verus! {

/// The rows of a matrix of booleans as sequences.
pub open spec fn rows(m: Seq<Vec<bool>>) -> Seq<Seq<bool>> {
    Seq::new(m.len(), |i: int| m[i]@)
}

/// There is an edge from `u` to `v`.
pub open spec fn edge(g: Seq<Seq<bool>>, u: int, v: int) -> bool {
    &&& 0 <= u < g.len()
    &&& 0 <= v < g[u].len()
    &&& v < g.len()
    &&& g[u][v]
}

/// The sequence of nodes is a walk along edges of the graph.
pub open spec fn is_walk(g: Seq<Seq<bool>>, p: Seq<int>) -> bool {
    &&& p.len() >= 1
    &&& forall|i: int| 0 <= i < p.len() - 1 ==> edge(g, #[trigger] p[i], p[i + 1])
}

/// `v` can be reached from `u` along at least one edge.
pub open spec fn reaches(g: Seq<Seq<bool>>, u: int, v: int) -> bool {
    exists|p: Seq<int>| #[trigger] is_walk(g, p) && p.len() >= 2 && p[0] == u && p.last() == v
}

/// An edge is a way to reach.
pub proof fn lemma_edge_reaches(g: Seq<Seq<bool>>, u: int, v: int)
    requires
        edge(g, u, v),
    ensures
        reaches(g, u, v),
{
    let p = seq![u, v];
    assert(is_walk(g, p));
    assert(p[0] == u && p.last() == v);
}

/// What is reached can be left along one more edge.
pub proof fn lemma_reaches_then_edge(g: Seq<Seq<bool>>, u: int, v: int, w: int)
    requires
        reaches(g, u, v),
        edge(g, v, w),
    ensures
        reaches(g, u, w),
{
    let p = choose|p: Seq<int>| #[trigger]
        is_walk(g, p) && p.len() >= 2 && p[0] == u && p.last() == v;
    let q = p.push(w);
    assert forall|i: int| 0 <= i < q.len() - 1 implies edge(g, #[trigger] q[i], q[i + 1]) by {
        if i < p.len() - 1 {
            assert(q[i] == p[i]);
            assert(q[i + 1] == p[i + 1]);
        }
    }
    assert(is_walk(g, q));
    assert(q[0] == u && q.last() == w);
}

proof fn lemma_walk_append(g: Seq<Seq<bool>>, p: Seq<int>, q: Seq<int>)
    requires
        is_walk(g, p),
        is_walk(g, q),
        p.last() == q[0],
    ensures
        is_walk(g, p + q.drop_first()),
        (p + q.drop_first())[0] == p[0],
        (p + q.drop_first()).last() == q.last(),
        (p + q.drop_first()).len() == p.len() + q.len() - 1,
{
    let r = p + q.drop_first();
    assert forall|i: int| 0 <= i < r.len() - 1 implies edge(g, #[trigger] r[i], r[i + 1]) by {
        if i < p.len() - 1 {
            assert(r[i] == p[i]);
            assert(r[i + 1] == p[i + 1]);
        } else if i == p.len() - 1 {
            assert(r[i] == q[0]);
            assert(r[i + 1] == q[1]);
        } else {
            assert(r[i] == q[i - p.len() + 1]);
            assert(r[i + 1] == q[i - p.len() + 2]);
        }
    }
}

/// Reaching is transitive.
pub proof fn lemma_reaches_transitive(g: Seq<Seq<bool>>, u: int, v: int, w: int)
    requires
        reaches(g, u, v),
        reaches(g, v, w),
    ensures
        reaches(g, u, w),
{
    let p = choose|p: Seq<int>| #[trigger]
        is_walk(g, p) && p.len() >= 2 && p[0] == u && p.last() == v;
    let q = choose|q: Seq<int>| #[trigger]
        is_walk(g, q) && q.len() >= 2 && q[0] == v && q.last() == w;
    lemma_walk_append(g, p, q);
    let r = p + q.drop_first();
    assert(is_walk(g, r) && r.len() >= 2 && r[0] == u && r.last() == w);
}

/// What is reached is a node of the graph, and so is where the walk starts.
pub proof fn lemma_reaches_in_range(g: Seq<Seq<bool>>, u: int, v: int)
    requires
        reaches(g, u, v),
    ensures
        0 <= u < g.len(),
        0 <= v < g.len(),
{
    let p = choose|p: Seq<int>| #[trigger]
        is_walk(g, p) && p.len() >= 2 && p[0] == u && p.last() == v;
    assert(edge(g, p[0], p[1]));
    assert(edge(g, p[p.len() - 2], p[p.len() - 2 + 1]));
}

/// A walk ends with an edge from a node that is where the walk starts or can
/// be reached from there.
pub proof fn lemma_last_edge(g: Seq<Seq<bool>>, a: int, b: int) -> (u: int)
    requires
        reaches(g, a, b),
    ensures
        edge(g, u, b),
        u == a || reaches(g, a, u),
{
    let p = choose|p: Seq<int>| #[trigger]
        is_walk(g, p) && p.len() >= 2 && p[0] == a && p.last() == b;
    let n = p.len() as int;
    let u = p[n - 2];
    assert(edge(g, p[n - 2], p[n - 2 + 1]));
    if n > 2 {
        let q = p.drop_last();
        assert forall|i: int| 0 <= i < q.len() - 1 implies edge(g, #[trigger] q[i], q[i + 1]) by {
            assert(q[i] == p[i]);
            assert(q[i + 1] == p[i + 1]);
        }
        assert(is_walk(g, q) && q.len() >= 2 && q[0] == a && q.last() == u);
    }
    u
}

/// The set holds every successor of `s` and every successor of its members.
pub open spec fn closed_from(g: Seq<Seq<bool>>, s: int, seen: Seq<bool>) -> bool {
    &&& seen.len() == g.len()
    &&& forall|v: int| edge(g, s, v) ==> #[trigger] seen[v]
    &&& forall|u: int, v: int| 0 <= u < g.len() && seen[u] && #[trigger] edge(g, u, v) ==> seen[v]
}

proof fn lemma_closed_holds_walk(g: Seq<Seq<bool>>, s: int, seen: Seq<bool>, p: Seq<int>)
    requires
        closed_from(g, s, seen),
        is_walk(g, p),
        p.len() >= 2,
        p[0] == s,
    ensures
        0 <= p.last() < g.len(),
        seen[p.last()],
    decreases p.len(),
{
    let n = p.len() as int;
    assert(edge(g, p[n - 2], p[n - 2 + 1]));
    if n == 2 {
        assert(edge(g, s, p[1]));
    } else {
        let q = p.drop_last();
        assert forall|i: int| 0 <= i < q.len() - 1 implies edge(g, #[trigger] q[i], q[i + 1]) by {
            assert(q[i] == p[i]);
            assert(q[i + 1] == p[i + 1]);
        }
        lemma_closed_holds_walk(g, s, seen, q);
        assert(q.last() == p[n - 2]);
    }
}

/// A closed set holds everything that can be reached.
pub proof fn lemma_closed_holds_reached(g: Seq<Seq<bool>>, s: int, seen: Seq<bool>, v: int)
    requires
        closed_from(g, s, seen),
        reaches(g, s, v),
    ensures
        0 <= v < g.len(),
        seen[v],
{
    let p = choose|p: Seq<int>| #[trigger]
        is_walk(g, p) && p.len() >= 2 && p[0] == s && p.last() == v;
    lemma_closed_holds_walk(g, s, seen, p);
}

/// How many entries are set.
pub open spec fn count_set(s: Seq<bool>) -> nat
    decreases s.len(),
{
    if s.len() == 0 {
        0
    } else {
        count_set(s.drop_last()) + if s.last() {
            1nat
        } else {
            0nat
        }
    }
}

proof fn lemma_count_bound(s: Seq<bool>)
    ensures
        count_set(s) <= s.len(),
    decreases s.len(),
{
    if s.len() > 0 {
        lemma_count_bound(s.drop_last());
    }
}

proof fn lemma_count_after_set(s: Seq<bool>, i: int)
    requires
        0 <= i < s.len(),
        !s[i],
    ensures
        count_set(s.update(i, true)) == count_set(s) + 1,
    decreases s.len(),
{
    let t = s.update(i, true);
    if i == s.len() - 1 {
        assert(t.drop_last() =~= s.drop_last());
    } else {
        assert(t.drop_last() =~= s.drop_last().update(i, true));
        lemma_count_after_set(s.drop_last(), i);
    }
}

/// The node is on the stack.
pub open spec fn on_stack(stack: Seq<usize>, x: int) -> bool {
    exists|k: int| 0 <= k < stack.len() && #[trigger] stack[k] == x
}

proof fn lemma_on_stack_push(stack: Seq<usize>, a: usize)
    ensures
        forall|x: int| #[trigger] on_stack(stack.push(a), x) <==> (on_stack(stack, x) || x == a),
{
    let t = stack.push(a);
    assert forall|x: int| #[trigger] on_stack(t, x) <==> (on_stack(stack, x) || x == a) by {
        if on_stack(t, x) {
            let k = choose|k: int| 0 <= k < t.len() && #[trigger] t[k] == x;
            if k < stack.len() {
                assert(stack[k] == x);
            }
        }
        if on_stack(stack, x) {
            let k = choose|k: int| 0 <= k < stack.len() && #[trigger] stack[k] == x;
            assert(t[k] == x);
        }
        if x == a {
            assert(t[stack.len() as int] == x);
        }
    }
}

/// The invariant of the search from `s`: the stack holds nodes that were seen,
/// what was seen can be reached, the successors of `s` up to `limit` were
/// seen, and so were the successors of every seen node that is neither on the
/// stack nor the node `busy`.
spec fn searching(
    g: Seq<Seq<bool>>,
    s: int,
    seen: Seq<bool>,
    stack: Seq<usize>,
    limit: int,
    busy: int,
) -> bool {
    &&& 0 <= s < g.len()
    &&& seen.len() == g.len()
    &&& count_set(seen) <= g.len()
    &&& forall|k: int| 0 <= k < stack.len() ==> (#[trigger] stack[k]) < g.len() && seen[stack[k] as int]
    &&& forall|x: int| 0 <= x < g.len() && #[trigger] seen[x] ==> reaches(g, s, x)
    &&& forall|x: int| 0 <= x < limit && edge(g, s, x) ==> #[trigger] seen[x]
    &&& forall|x: int, y: int|
        0 <= x < g.len() && x != busy && seen[x] && !on_stack(stack, x) && #[trigger] edge(g, x, y)
            ==> seen[y]
}

proof fn lemma_search_step(
    g: Seq<Seq<bool>>,
    s: int,
    seen: Seq<bool>,
    stack: Seq<usize>,
    limit: int,
    busy: int,
    from: int,
    w: usize,
)
    requires
        searching(g, s, seen, stack, limit, busy),
        edge(g, from, w as int),
        from == s || (0 <= from < g.len() && seen[from]),
        !seen[w as int],
    ensures
        searching(g, s, seen.update(w as int, true), stack.push(w), limit, busy),
        count_set(seen.update(w as int, true)) == count_set(seen) + 1,
{
    let seen2 = seen.update(w as int, true);
    let stack2 = stack.push(w);
    lemma_count_after_set(seen, w as int);
    lemma_count_bound(seen2);
    lemma_on_stack_push(stack, w);
    if from == s {
        lemma_edge_reaches(g, s, w as int);
    } else {
        lemma_reaches_then_edge(g, s, from, w as int);
    }
    assert forall|k: int| 0 <= k < stack2.len() implies (#[trigger] stack2[k]) < g.len()
        && seen2[stack2[k] as int] by {
        if k < stack.len() {
            assert(stack2[k] == stack[k]);
        }
    }
    assert forall|x: int, y: int|
        0 <= x < g.len() && x != busy && seen2[x] && !on_stack(stack2, x) && #[trigger] edge(
            g,
            x,
            y,
        ) implies seen2[y] by {
        assert(x != w);
        assert(!on_stack(stack, x));
        assert(seen[x]);
        assert(seen[y]);
    }
}

proof fn lemma_search_pop(
    g: Seq<Seq<bool>>,
    s: int,
    seen: Seq<bool>,
    stack: Seq<usize>,
    u: usize,
)
    requires
        searching(g, s, seen, stack.push(u), g.len() as int, -1),
    ensures
        searching(g, s, seen, stack, g.len() as int, u as int),
        u < g.len(),
        seen[u as int],
{
    let full = stack.push(u);
    lemma_on_stack_push(stack, u);
    assert(full[stack.len() as int] == u);
    assert forall|k: int| 0 <= k < stack.len() implies (#[trigger] stack[k]) < g.len()
        && seen[stack[k] as int] by {
        assert(full[k] == stack[k]);
    }
    assert forall|x: int, y: int|
        0 <= x < g.len() && x != u && seen[x] && !on_stack(stack, x) && #[trigger] edge(g, x, y)
        implies seen[y] by {
        assert(!on_stack(full, x));
    }
}

proof fn lemma_search_done(g: Seq<Seq<bool>>, s: int, seen: Seq<bool>)
    requires
        searching(g, s, seen, Seq::<usize>::empty(), g.len() as int, -1),
    ensures
        forall|v: int| 0 <= v < g.len() ==> seen[v] == reaches(g, s, v),
{
    assert(forall|x: int| !on_stack(Seq::<usize>::empty(), x));
    assert forall|v: int| edge(g, s, v) implies #[trigger] seen[v] by {}
    assert(closed_from(g, s, seen));
    assert forall|v: int| 0 <= v < g.len() implies seen[v] == reaches(g, s, v) by {
        if reaches(g, s, v) {
            lemma_closed_holds_reached(g, s, seen, v);
        }
    }
}

/// The nodes that can be reached from `s` along at least one edge. Entries
/// that a row lacks count as absent edges, and so do entries beyond the number
/// of rows.
pub fn reachable_from(g: &Vec<Vec<bool>>, s: usize) -> (seen: Vec<bool>)
    ensures
        seen@.len() == g@.len(),
        forall|v: int| 0 <= v < g@.len() ==> seen@[v] == reaches(rows(g@), s as int, v),
{
    let n = g.len();
    let ghost m = rows(g@);
    let mut seen: Vec<bool> = Vec::new();
    let mut i: usize = 0;
    while i < n
        invariant
            i <= n,
            seen@.len() == i,
            forall|k: int| 0 <= k < i ==> !seen@[k],
        decreases n - i,
    {
        seen.push(false);
        i += 1;
    }
    if s >= n {
        proof {
            assert forall|v: int| 0 <= v < n implies seen@[v] == reaches(m, s as int, v) by {
                if reaches(m, s as int, v) {
                    lemma_reaches_in_range(m, s as int, v);
                }
            }
        }
        return seen;
    }
    let mut stack: Vec<usize> = Vec::new();
    let mut v: usize = 0;
    proof {
        lemma_count_bound(seen@);
        assert(forall|x: int| !on_stack(stack@, x));
    }
    while v < n
        invariant
            n == g@.len(),
            m == rows(g@),
            v <= n,
            searching(m, s as int, seen@, stack@, v as int, -1),
        decreases n - v,
    {
        assert(m[s as int] == g@[s as int]@);
        if v < g[s].len() && g[s][v] && !seen[v] {
            proof {
                lemma_search_step(m, s as int, seen@, stack@, v as int, -1, s as int, v);
            }
            seen.set(v, true);
            stack.push(v);
        }
        v += 1;
    }
    while stack.len() > 0
        invariant
            n == g@.len(),
            m == rows(g@),
            searching(m, s as int, seen@, stack@, n as int, -1),
        decreases n - count_set(seen@) + stack@.len(),
    {
        let ghost before = stack@;
        let ghost measure = n - count_set(seen@) + stack@.len();
        let u = stack.pop().unwrap();
        proof {
            assert(before =~= stack@.push(u));
            lemma_search_pop(m, s as int, seen@, stack@, u);
        }
        let mut w: usize = 0;
        while w < n
            invariant
                n == g@.len(),
                m == rows(g@),
                u < n,
                w <= n,
                seen@[u as int],
                searching(m, s as int, seen@, stack@, n as int, u as int),
                forall|y: int| 0 <= y < w && edge(m, u as int, y) ==> seen@[y],
                n - count_set(seen@) + stack@.len() == measure - 1,
            decreases n - w,
        {
            assert(m[u as int] == g@[u as int]@);
            if w < g[u].len() && g[u][w] && !seen[w] {
                proof {
                    lemma_search_step(m, s as int, seen@, stack@, n as int, u as int, u as int, w);
                }
                seen.set(w, true);
                stack.push(w);
            }
            w += 1;
        }
    }
    proof {
        assert(stack@ =~= Seq::<usize>::empty());
        lemma_search_done(m, s as int, seen@);
    }
    seen
}

/// The matrix tells, for every pair of nodes of the graph, whether the second
/// can be reached from the first along at least one edge.
pub open spec fn tells_reach(reach: Seq<Vec<bool>>, g: Seq<Seq<bool>>) -> bool {
    &&& reach.len() == g.len()
    &&& forall|a: int| 0 <= a < g.len() ==> (#[trigger] reach[a])@.len() == g.len()
    &&& forall|a: int, b: int|
        0 <= a < g.len() && 0 <= b < g.len() ==> #[trigger] reach[a]@[b] == reaches(g, a, b)
}

/// For every pair of nodes, whether the second can be reached from the first
/// along at least one edge.
pub fn reach_matrix(g: &Vec<Vec<bool>>) -> (r: Vec<Vec<bool>>)
    ensures
        tells_reach(r@, rows(g@)),
{
    let n = g.len();
    let mut r: Vec<Vec<bool>> = Vec::new();
    let mut u: usize = 0;
    while u < n
        invariant
            n == g@.len(),
            u <= n,
            r@.len() == u,
            forall|a: int| 0 <= a < u ==> (#[trigger] r@[a])@.len() == n,
            forall|a: int, b: int|
                0 <= a < u && 0 <= b < n ==> #[trigger] r@[a]@[b] == reaches(rows(g@), a, b),
        decreases n - u,
    {
        let row = reachable_from(g, u);
        let ghost before = r@;
        r.push(row);
        assert(forall|a: int| 0 <= a < u ==> r@[a] == before[a]);
        assert(r@[u as int] == row);
        u += 1;
    }
    r
}

/// Each of the two nodes can be reached from the other.
pub open spec fn mutual(g: Seq<Seq<bool>>, u: int, v: int) -> bool {
    reaches(g, u, v) && reaches(g, v, u)
}

/// The node lies on a cycle and no node before it lies on a cycle with it.
pub open spec fn leads(g: Seq<Seq<bool>>, u: int) -> bool {
    &&& reaches(g, u, u)
    &&& forall|w: int| 0 <= w < u ==> !mutual(g, u, w)
}

/// The nodes before `k` that lie on a cycle with `u`, in ascending order.
pub open spec fn members_upto(g: Seq<Seq<bool>>, u: int, k: int) -> Seq<int>
    decreases k,
{
    if k <= 0 {
        Seq::empty()
    } else {
        let rest = members_upto(g, u, k - 1);
        if mutual(g, u, k - 1) {
            rest.push(k - 1)
        } else {
            rest
        }
    }
}

/// The nodes that lie on a cycle with `u`, in ascending order.
pub open spec fn component(g: Seq<Seq<bool>>, u: int) -> Seq<int> {
    members_upto(g, u, g.len() as int)
}

/// The leading nodes before `k`, in ascending order.
pub open spec fn leaders_upto(g: Seq<Seq<bool>>, k: int) -> Seq<int>
    decreases k,
{
    if k <= 0 {
        Seq::empty()
    } else {
        let rest = leaders_upto(g, k - 1);
        if leads(g, k - 1) {
            rest.push(k - 1)
        } else {
            rest
        }
    }
}

/// The leading nodes of the graph, in ascending order.
pub open spec fn leaders(g: Seq<Seq<bool>>) -> Seq<int> {
    leaders_upto(g, g.len() as int)
}

/// The components of the graph that hold a cycle: for each leading node, in
/// ascending order, the nodes that lie on a cycle with it.
pub open spec fn cycle_components(g: Seq<Seq<bool>>) -> Seq<Seq<int>> {
    Seq::new(leaders(g).len(), |i: int| component(g, leaders(g)[i]))
}

/// The members of a component before `k` are the nodes before `k` that lie on
/// a cycle with its leading node, in strictly ascending order.
pub proof fn lemma_members_upto(g: Seq<Seq<bool>>, u: int, k: int)
    ensures
        forall|x: int| #[trigger]
            members_upto(g, u, k).contains(x) ==> 0 <= x < k && mutual(g, u, x),
        forall|x: int|
            0 <= x < k && #[trigger] mutual(g, u, x) ==> members_upto(g, u, k).contains(x),
        forall|i: int, j: int|
            0 <= i < j < members_upto(g, u, k).len() ==> (#[trigger] members_upto(g, u, k)[i])
                < (#[trigger] members_upto(g, u, k)[j]),
    decreases k,
{
    if k > 0 {
        lemma_members_upto(g, u, k - 1);
        let rest = members_upto(g, u, k - 1);
        let all = members_upto(g, u, k);
        if mutual(g, u, k - 1) {
            assert(all == rest.push(k - 1));
            assert(all[rest.len() as int] == k - 1);
            assert forall|x: int| #[trigger] all.contains(x) implies 0 <= x < k && mutual(
                g,
                u,
                x,
            ) by {
                let i = choose|i: int| 0 <= i < all.len() && all[i] == x;
                if i < rest.len() {
                    assert(rest[i] == x);
                    assert(rest.contains(x));
                }
            }
            assert forall|x: int| 0 <= x < k && #[trigger] mutual(g, u, x) implies all.contains(
                x,
            ) by {
                if x < k - 1 {
                    assert(rest.contains(x));
                    let i = choose|i: int| 0 <= i < rest.len() && rest[i] == x;
                    assert(all[i] == x);
                }
            }
            assert forall|i: int, j: int| 0 <= i < j < all.len() implies (#[trigger] all[i]) < (
            #[trigger] all[j]) by {
                assert(all[i] == rest[i]);
                if j == rest.len() {
                    assert(rest.contains(rest[i]));
                } else {
                    assert(all[j] == rest[j]);
                }
            }
        }
    } else {
        assert(members_upto(g, u, k) =~= Seq::empty());
    }
}

/// The leading nodes before `k` are the nodes before `k` that lead, in
/// strictly ascending order.
pub proof fn lemma_leaders_upto(g: Seq<Seq<bool>>, k: int)
    ensures
        forall|x: int| #[trigger] leaders_upto(g, k).contains(x) ==> 0 <= x < k && leads(g, x),
        forall|x: int| 0 <= x < k && #[trigger] leads(g, x) ==> leaders_upto(g, k).contains(x),
        forall|i: int, j: int|
            0 <= i < j < leaders_upto(g, k).len() ==> (#[trigger] leaders_upto(g, k)[i]) < (
            #[trigger] leaders_upto(g, k)[j]),
    decreases k,
{
    if k > 0 {
        lemma_leaders_upto(g, k - 1);
        let rest = leaders_upto(g, k - 1);
        let all = leaders_upto(g, k);
        if leads(g, k - 1) {
            assert(all == rest.push(k - 1));
            assert(all[rest.len() as int] == k - 1);
            assert forall|x: int| #[trigger] all.contains(x) implies 0 <= x < k && leads(g, x) by {
                let i = choose|i: int| 0 <= i < all.len() && all[i] == x;
                if i < rest.len() {
                    assert(rest[i] == x);
                    assert(rest.contains(x));
                }
            }
            assert forall|x: int| 0 <= x < k && #[trigger] leads(g, x) implies all.contains(x) by {
                if x < k - 1 {
                    assert(rest.contains(x));
                    let i = choose|i: int| 0 <= i < rest.len() && rest[i] == x;
                    assert(all[i] == x);
                }
            }
            assert forall|i: int, j: int| 0 <= i < j < all.len() implies (#[trigger] all[i]) < (
            #[trigger] all[j]) by {
                assert(all[i] == rest[i]);
                if j == rest.len() {
                    assert(rest.contains(rest[i]));
                } else {
                    assert(all[j] == rest[j]);
                }
            }
        }
    } else {
        assert(leaders_upto(g, k) =~= Seq::empty());
    }
}

/// Lying on a cycle together is transitive.
pub proof fn lemma_mutual_transitive(g: Seq<Seq<bool>>, a: int, b: int, c: int)
    requires
        mutual(g, a, b),
        mutual(g, b, c),
    ensures
        mutual(g, a, c),
{
    lemma_reaches_transitive(g, a, b, c);
    lemma_reaches_transitive(g, c, b, a);
}

/// Every node on a cycle lies on a cycle with a leading node.
pub proof fn lemma_has_leader(g: Seq<Seq<bool>>, a: int) -> (l: int)
    requires
        reaches(g, a, a),
    ensures
        leads(g, l),
        mutual(g, l, a),
        0 <= l <= a < g.len(),
    decreases a,
{
    lemma_reaches_in_range(g, a, a);
    if leads(g, a) {
        a
    } else {
        let w = choose|w: int| 0 <= w < a && mutual(g, a, w);
        lemma_reaches_transitive(g, w, a, w);
        let l = lemma_has_leader(g, w);
        lemma_mutual_transitive(g, l, w, a);
        l
    }
}

/// Two leading nodes that lie on a cycle with the same node are one.
pub proof fn lemma_leader_unique(g: Seq<Seq<bool>>, l1: int, l2: int, a: int)
    requires
        leads(g, l1),
        leads(g, l2),
        mutual(g, l1, a),
        mutual(g, l2, a),
    ensures
        l1 == l2,
{
    lemma_mutual_transitive(g, l1, a, l2);
    lemma_reaches_in_range(g, l1, l1);
    lemma_reaches_in_range(g, l2, l2);
    if l1 < l2 {
        assert(!mutual(g, l2, l1));
    } else if l2 < l1 {
        assert(!mutual(g, l1, l2));
    }
}

/// What the reported components hold: component `k` belongs to a leading
/// node, and its members are exactly the nodes that lie on a cycle with that
/// node. It is not empty and each member lies on a cycle.
pub proof fn lemma_component_members(g: Seq<Seq<bool>>, k: int)
    requires
        0 <= k < cycle_components(g).len(),
    ensures
        leads(g, leaders(g)[k]),
        0 <= leaders(g)[k] < g.len(),
        cycle_components(g)[k].contains(leaders(g)[k]),
        forall|x: int| #[trigger]
            cycle_components(g)[k].contains(x) ==> 0 <= x < g.len() && mutual(
                g,
                leaders(g)[k],
                x,
            ) && reaches(g, x, x),
        forall|x: int|
            0 <= x < g.len() && #[trigger] mutual(g, leaders(g)[k], x) ==> cycle_components(
                g,
            )[k].contains(x),
{
    let l = leaders(g)[k];
    lemma_leaders_upto(g, g.len() as int);
    assert(leaders(g).contains(l));
    assert(leads(g, l));
    lemma_members_upto(g, l, g.len() as int);
    assert(cycle_components(g)[k] == component(g, l));
    assert(mutual(g, l, l));
    assert forall|x: int| #[trigger] cycle_components(g)[k].contains(x) implies 0 <= x < g.len()
        && mutual(g, l, x) && reaches(g, x, x) by {
        assert(members_upto(g, l, g.len() as int).contains(x));
        lemma_reaches_transitive(g, x, l, x);
    }
}

/// A component starts with its leading node.
pub proof fn lemma_component_starts_with_leader(g: Seq<Seq<bool>>, k: int)
    requires
        0 <= k < cycle_components(g).len(),
    ensures
        cycle_components(g)[k].len() > 0,
        cycle_components(g)[k][0] == leaders(g)[k],
{
    let l = leaders(g)[k];
    let c = cycle_components(g)[k];
    lemma_component_members(g, k);
    lemma_members_upto(g, l, g.len() as int);
    assert(c == component(g, l));
    let i = choose|i: int| 0 <= i < c.len() && c[i] == l;
    if i > 0 {
        assert(c[0] < c[i]);
        assert(c.contains(c[0]));
        assert(mutual(g, l, c[0]));
    }
}

/// A node on a cycle is in exactly one of the reported components.
pub proof fn lemma_on_cycle_in_one_component(g: Seq<Seq<bool>>, a: int) -> (k: int)
    requires
        reaches(g, a, a),
    ensures
        0 <= k < cycle_components(g).len(),
        cycle_components(g)[k].contains(a),
        forall|other: int|
            0 <= other < cycle_components(g).len() && (#[trigger] cycle_components(
                g,
            )[other]).contains(a) ==> other == k,
{
    let l = lemma_has_leader(g, a);
    lemma_leaders_upto(g, g.len() as int);
    assert(leads(g, l));
    assert(leaders(g).contains(l));
    let k = choose|k: int| 0 <= k < leaders(g).len() && leaders(g)[k] == l;
    lemma_component_members(g, k);
    assert(mutual(g, leaders(g)[k], a));
    assert forall|other: int|
        0 <= other < cycle_components(g).len() && (#[trigger] cycle_components(
            g,
        )[other]).contains(a) implies other == k by {
        lemma_component_members(g, other);
        assert(cycle_components(g)[other].contains(a));
        lemma_leader_unique(g, l, leaders(g)[other], a);
        if other < k {
            assert(leaders(g)[other] < leaders(g)[k]);
        } else if k < other {
            assert(leaders(g)[k] < leaders(g)[other]);
        }
    }
    k
}

/// The component that holds a node holds exactly the nodes that lie on a
/// cycle with it.
pub proof fn lemma_component_is_whole(g: Seq<Seq<bool>>, k: int, a: int, b: int)
    requires
        0 <= k < cycle_components(g).len(),
        cycle_components(g)[k].contains(a),
    ensures
        cycle_components(g)[k].contains(b) <==> mutual(g, a, b),
{
    lemma_component_members(g, k);
    let l = leaders(g)[k];
    assert(mutual(g, l, a));
    if mutual(g, a, b) {
        lemma_mutual_transitive(g, l, a, b);
        lemma_reaches_in_range(g, a, b);
        assert(cycle_components(g)[k].contains(b));
    }
    if cycle_components(g)[k].contains(b) {
        assert(mutual(g, l, b));
        lemma_mutual_transitive(g, a, l, b);
    }
}

/// The nodes of a list of components as integers.
pub open spec fn node_lists(r: Seq<Vec<usize>>) -> Seq<Seq<int>> {
    Seq::new(r.len(), |i: int| Seq::new(r[i]@.len(), |j: int| r[i]@[j] as int))
}

/// The components of a graph that hold a cycle.
///
/// A component is reported for each node that lies on a cycle and has no node
/// before it on a cycle with it; it lists, in ascending order, the nodes that
/// lie on a cycle with that node. The components come in ascending order of
/// their first nodes.
pub fn find_components(g: &Vec<Vec<bool>>) -> (r: Vec<Vec<usize>>)
    ensures
        node_lists(r@) == cycle_components(rows(g@)),
{
    let n = g.len();
    let ghost m = rows(g@);
    let reach = reach_matrix(g);
    let mut out: Vec<Vec<usize>> = Vec::new();
    let mut u: usize = 0;
    assert(node_lists(out@) =~= Seq::new(
        leaders_upto(m, 0).len(),
        |i: int| component(m, leaders_upto(m, 0)[i]),
    ));
    while u < n
        invariant
            n == g@.len(),
            m == rows(g@),
            u <= n,
            tells_reach(reach@, m),
            node_lists(out@) == Seq::new(
                leaders_upto(m, u as int).len(),
                |i: int| component(m, leaders_upto(m, u as int)[i]),
            ),
        decreases n - u,
    {
        let mut leading = reach[u][u];
        assert(leading == reaches(m, u as int, u as int));
        let mut w: usize = 0;
        while w < u
            invariant
                n == g@.len(),
                u < n,
                w <= u,
                m.len() == n,
                tells_reach(reach@, m),
                leading == (reaches(m, u as int, u as int) && forall|x: int|
                    0 <= x < w ==> !#[trigger] mutual(m, u as int, x)),
            decreases u - w,
        {
            let there = reach[u][w];
            let back = reach[w][u];
            assert(there == reaches(m, u as int, w as int));
            assert(back == reaches(m, w as int, u as int));
            assert(mutual(m, u as int, w as int) == (there && back));
            if there && back {
                leading = false;
            }
            w += 1;
        }
        assert(leading == leads(m, u as int));
        let ghost before = out@;
        let ghost earlier = leaders_upto(m, u as int);
        if leading {
            let mut members: Vec<usize> = Vec::new();
            let mut v: usize = 0;
            while v < n
                invariant
                    n == g@.len(),
                    u < n,
                    v <= n,
                    m.len() == n,
                    tells_reach(reach@, m),
                    Seq::new(members@.len(), |j: int| members@[j] as int) == members_upto(
                        m,
                        u as int,
                        v as int,
                    ),
                decreases n - v,
            {
                let ghost had = members@;
                let there = reach[u][v];
                let back = reach[v][u];
                assert(there == reaches(m, u as int, v as int));
                assert(back == reaches(m, v as int, u as int));
                if there && back {
                    members.push(v);
                    assert(Seq::new(members@.len(), |j: int| members@[j] as int) =~= Seq::new(
                        had.len(),
                        |j: int| had[j] as int,
                    ).push(v as int));
                }
                v += 1;
            }
            let ghost listed = Seq::new(members@.len(), |j: int| members@[j] as int);
            out.push(members);
            assert(node_lists(out@) =~= node_lists(before).push(listed));
            assert(leaders_upto(m, u + 1) == earlier.push(u as int));
            assert(node_lists(out@) =~= Seq::new(
                leaders_upto(m, u + 1).len(),
                |i: int| component(m, leaders_upto(m, u + 1)[i]),
            ));
        } else {
            assert(leaders_upto(m, u + 1) == earlier);
        }
        u += 1;
    }
    out
}

} // verus!
