//! Reachability in a finite graph, and the selection of items by flags.

use vstd::prelude::*;

verus! {

/// Whether a list of nodes holds `b`.
pub open spec fn lists(row: Seq<usize>, b: int) -> bool {
    exists|j: int| 0 <= j < row.len() && #[trigger] row[j] == b
}

/// The graph has an edge from `a` to `b`. Nodes are the numbers below the
/// number of adjacency lists; an entry that is no node is no edge.
pub open spec fn has_edge(adj: Seq<Vec<usize>>, a: int, b: int) -> bool {
    &&& 0 <= a < adj.len()
    &&& 0 <= b < adj.len()
    &&& lists(adj[a]@, b)
}

/// Whether `n` is one of the roots and a node.
pub open spec fn is_root(adj: Seq<Vec<usize>>, roots: Seq<usize>, n: int) -> bool {
    &&& 0 <= n < adj.len()
    &&& lists(roots, n)
}

/// A walk through the graph that starts at a root.
pub open spec fn is_path(adj: Seq<Vec<usize>>, roots: Seq<usize>, p: Seq<int>) -> bool {
    &&& p.len() > 0
    &&& is_root(adj, roots, p[0])
    &&& forall|i: int| 0 <= i < p.len() - 1 ==> has_edge(adj, #[trigger] p[i], p[i + 1])
}

/// Whether a walk from a root ends at `n`: the nodes for which this holds
/// are the least set that holds the roots and is closed under the edges.
pub open spec fn reachable(adj: Seq<Vec<usize>>, roots: Seq<usize>, n: int) -> bool {
    exists|p: Seq<int>| is_path(adj, roots, p) && #[trigger] p.last() == n
}

/// A walk through the nodes below `count` that starts at a root and
/// follows the edges of a relation.
pub open spec fn is_walk(
    count: int,
    root: spec_fn(int) -> bool,
    edge: spec_fn(int, int) -> bool,
    p: Seq<int>,
) -> bool {
    &&& p.len() > 0
    &&& 0 <= p[0] < count
    &&& root(p[0])
    &&& forall|i: int|
        0 <= i < p.len() - 1 ==> 0 <= p[i + 1] < count && edge(#[trigger] p[i], p[i + 1])
}

/// Whether a walk from a root ends at `n`: the nodes for which this holds
/// are the least set that holds the roots and is closed under the edges.
pub open spec fn reaches(
    count: int,
    root: spec_fn(int) -> bool,
    edge: spec_fn(int, int) -> bool,
    n: int,
) -> bool {
    exists|p: Seq<int>| is_walk(count, root, edge, p) && #[trigger] p.last() == n
}

/// Adjacency lists that list the edges of a relation reach what the
/// relation reaches.
pub proof fn lemma_reachable_is_reaches(
    adj: Seq<Vec<usize>>,
    roots: Seq<usize>,
    root: spec_fn(int) -> bool,
    edge: spec_fn(int, int) -> bool,
    n: int,
)
    requires
        forall|r: int| 0 <= r < adj.len() ==> is_root(adj, roots, r) == root(r),
        forall|a: int, b: int|
            0 <= a < adj.len() && 0 <= b < adj.len() ==> has_edge(adj, a, b) == edge(a, b),
    ensures
        reachable(adj, roots, n) == reaches(adj.len() as int, root, edge, n),
{
    if reachable(adj, roots, n) {
        let p = choose|p: Seq<int>| is_path(adj, roots, p) && #[trigger] p.last() == n;
        assert forall|i: int| 0 <= i < p.len() - 1 implies 0 <= p[i + 1] < adj.len() && edge(
            #[trigger] p[i],
            p[i + 1],
        ) by {
            assert(has_edge(adj, p[i], p[i + 1]));
            assert(has_edge(adj, p[i], p[i + 1]) == edge(p[i], p[i + 1]));
        }
        assert(is_root(adj, roots, p[0]));
        assert(is_root(adj, roots, p[0]) == root(p[0]));
        assert(is_walk(adj.len() as int, root, edge, p));
    }
    if reaches(adj.len() as int, root, edge, n) {
        let p = choose|p: Seq<int>|
            is_walk(adj.len() as int, root, edge, p) && #[trigger] p.last() == n;
        assert forall|i: int| 0 <= i < p.len() implies 0 <= #[trigger] p[i] < adj.len() by {
            if i > 0 {
                assert(edge(p[i - 1], p[i - 1 + 1]));
            }
        }
        assert forall|i: int| 0 <= i < p.len() - 1 implies has_edge(
            adj,
            #[trigger] p[i],
            p[i + 1],
        ) by {
            assert(0 <= p[i] < adj.len());
            assert(edge(p[i], p[i + 1]));
        }
        assert(is_path(adj, roots, p));
    }
}

/// The items that a predicate holds of are those whose flag is set, where
/// the flags say what the predicate says.
pub proof fn lemma_select_is_filter<T>(items: Seq<T>, flags: Seq<bool>, pred: spec_fn(T) -> bool)
    requires
        flags.len() == items.len(),
        forall|i: int| 0 <= i < items.len() ==> flags[i] == pred(#[trigger] items[i]),
    ensures
        select(items, flags) == items.filter(pred),
    decreases items.len(),
{
    reveal(Seq::filter);
    if items.len() > 0 {
        let rest = items.drop_last();
        let rest_flags = flags.drop_last();
        assert forall|i: int| 0 <= i < rest.len() implies rest_flags[i] == pred(
            #[trigger] rest[i],
        ) by {
            assert(rest[i] == items[i]);
        }
        lemma_select_is_filter(rest, rest_flags, pred);
        lemma_select_ignores_more_flags(rest, flags, rest_flags);
    }
}

/// Flags behind the items do not matter.
pub proof fn lemma_select_ignores_more_flags<T>(items: Seq<T>, a: Seq<bool>, b: Seq<bool>)
    requires
        a.len() >= items.len(),
        b.len() >= items.len(),
        forall|i: int| 0 <= i < items.len() ==> a[i] == b[i],
    ensures
        select(items, a) == select(items, b),
    decreases items.len(),
{
    if items.len() > 0 {
        lemma_select_ignores_more_flags(items.drop_last(), a, b);
    }
}

/// How many of the flags are not set.
pub open spec fn count_unset(flags: Seq<bool>) -> nat
    decreases flags.len(),
{
    if flags.len() == 0 {
        0
    } else {
        count_unset(flags.drop_last()) + if flags.last() {
            0nat
        } else {
            1nat
        }
    }
}

proof fn lemma_set_flag(flags: Seq<bool>, k: int)
    requires
        0 <= k < flags.len(),
        !flags[k],
    ensures
        count_unset(flags.update(k, true)) + 1 == count_unset(flags),
    decreases flags.len(),
{
    if k == flags.len() - 1 {
        assert(flags.update(k, true).drop_last() =~= flags.drop_last());
    } else {
        lemma_set_flag(flags.drop_last(), k);
        assert(flags.update(k, true).drop_last() =~= flags.drop_last().update(k, true));
    }
}

proof fn lemma_root_reachable(adj: Seq<Vec<usize>>, roots: Seq<usize>, n: int)
    requires
        is_root(adj, roots, n),
    ensures
        reachable(adj, roots, n),
{
    let p = seq![n];
    assert(is_path(adj, roots, p));
    assert(p.last() == n);
}

proof fn lemma_step_reachable(adj: Seq<Vec<usize>>, roots: Seq<usize>, a: int, b: int)
    requires
        reachable(adj, roots, a),
        has_edge(adj, a, b),
    ensures
        reachable(adj, roots, b),
{
    let p = choose|p: Seq<int>| is_path(adj, roots, p) && #[trigger] p.last() == a;
    let q = p.push(b);
    assert forall|i: int| 0 <= i < q.len() - 1 implies has_edge(adj, #[trigger] q[i], q[i + 1]) by {
        if i < p.len() - 1 {
            assert(q[i] == p[i] && q[i + 1] == p[i + 1]);
        } else {
            assert(q[i] == a && q[i + 1] == b);
        }
    }
    assert(q[0] == p[0]);
    assert(is_path(adj, roots, q));
    assert(q.last() == b);
}

/// A set of marked nodes that holds the roots and is closed under the
/// edges holds every reachable node.
proof fn lemma_closed_holds_reachable(
    adj: Seq<Vec<usize>>,
    roots: Seq<usize>,
    marked: Seq<bool>,
    p: Seq<int>,
)
    requires
        marked.len() == adj.len(),
        forall|n: int| is_root(adj, roots, n) ==> marked[n],
        forall|a: int, b: int| 0 <= a < adj.len() && marked[a] && has_edge(adj, a, b) ==> marked[b],
        is_path(adj, roots, p),
    ensures
        0 <= p.last() < adj.len(),
        marked[p.last()],
    decreases p.len(),
{
    if p.len() > 1 {
        let q = p.drop_last();
        assert forall|i: int| 0 <= i < q.len() - 1 implies has_edge(adj, #[trigger] q[i], q[i + 1]) by {
            assert(q[i] == p[i] && q[i + 1] == p[i + 1]);
        }
        assert(q[0] == p[0]);
        lemma_closed_holds_reachable(adj, roots, marked, q);
        assert(has_edge(adj, p[p.len() - 2], p[p.len() - 1]));
        assert(q.last() == p[p.len() - 2]);
    }
}

/// The edges of the nodes that are marked and not waiting lead to marked
/// nodes.
spec fn settled(adj: Seq<Vec<usize>>, marked: Seq<bool>, waiting: Seq<usize>, skip: int) -> bool {
    forall|a: int, b: int|
        0 <= a < adj.len() && marked[a] && a != skip && !waiting.contains(a as usize) && has_edge(
            adj,
            a,
            b,
        ) ==> marked[b]
}

/// Marks the nodes that can be reached from the roots.
pub fn reach(adj: &Vec<Vec<usize>>, roots: &Vec<usize>) -> (marked: Vec<bool>)
    ensures
        marked@.len() == adj@.len(),
        forall|n: int| 0 <= n < adj@.len() ==> marked@[n] == reachable(adj@, roots@, n),
{
    let n: usize = adj.len();
    let mut marked: Vec<bool> = Vec::new();
    let mut i: usize = 0;
    while i < n
        invariant
            i <= n,
            marked@.len() == i,
            forall|k: int| 0 <= k < i ==> !marked@[k],
        decreases n - i,
    {
        marked.push(false);
        i += 1;
    }
    let mut waiting: Vec<usize> = Vec::new();
    let mut r: usize = 0;
    while r < roots.len()
        invariant
            n == adj@.len(),
            r <= roots@.len(),
            marked@.len() == n,
            forall|k: int| 0 <= k < waiting@.len() ==> waiting@[k] < n && marked@[waiting@[k] as int],
            forall|m: int| 0 <= m < n && marked@[m] ==> reachable(adj@, roots@, m),
            forall|m: int| 0 <= m < n && marked@[m] ==> waiting@.contains(m as usize),
            forall|j: int| 0 <= j < r && roots@[j] < n ==> marked@[roots@[j] as int],
        decreases roots@.len() - r,
    {
        let root = roots[r];
        if root < n && !marked[root] {
            proof {
                assert(is_root(adj@, roots@, root as int));
                lemma_root_reachable(adj@, roots@, root as int);
            }
            let ghost old_waiting = waiting@;
            marked.set(root, true);
            waiting.push(root);
            assert forall|m: int| 0 <= m < n && marked@[m] implies waiting@.contains(
                m as usize,
            ) by {
                if m == root {
                    assert(waiting@[waiting@.len() - 1] == root);
                } else {
                    let k = choose|k: int| 0 <= k < old_waiting.len() && old_waiting[k] == m;
                    assert(waiting@[k] == m);
                }
            }
        }
        r += 1;
    }
    assert(settled(adj@, marked@, waiting@, -1));
    while waiting.len() > 0
        invariant
            n == adj@.len(),
            marked@.len() == n,
            forall|k: int| 0 <= k < waiting@.len() ==> waiting@[k] < n && marked@[waiting@[k] as int],
            forall|m: int| 0 <= m < n && marked@[m] ==> reachable(adj@, roots@, m),
            forall|j: int| 0 <= j < roots@.len() && roots@[j] < n ==> marked@[roots@[j] as int],
            settled(adj@, marked@, waiting@, -1),
        decreases count_unset(marked@), waiting@.len(),
    {
        let ghost before = waiting@;
        let a = waiting.pop().unwrap();
        assert forall|x: usize| !waiting@.contains(x) && x != a implies !before.contains(x) by {
            if before.contains(x) {
                let k = choose|k: int| 0 <= k < before.len() && before[k] == x;
                if k < waiting@.len() {
                    assert(waiting@[k] == x);
                }
            }
        }
        assert(settled(adj@, marked@, waiting@, a as int));
        let edges = &adj[a];
        let mut k: usize = 0;
        let ghost start_count = count_unset(marked@);
        let ghost start_len = waiting@.len();
        while k < edges.len()
            invariant
                n == adj@.len(),
                a < n,
                marked@.len() == n,
                marked@[a as int],
                edges@ == adj@[a as int]@,
                k <= edges@.len(),
                forall|j: int|
                    0 <= j < waiting@.len() ==> waiting@[j] < n && marked@[waiting@[j] as int],
                forall|m: int| 0 <= m < n && marked@[m] ==> reachable(adj@, roots@, m),
                forall|j: int|
                    0 <= j < roots@.len() && roots@[j] < n ==> marked@[roots@[j] as int],
                settled(adj@, marked@, waiting@, a as int),
                forall|j: int| 0 <= j < k && edges@[j] < n ==> marked@[edges@[j] as int],
                count_unset(marked@) < start_count || (count_unset(marked@) == start_count
                    && waiting@.len() == start_len),
            decreases edges@.len() - k,
        {
            let b = edges[k];
            if b < n && !marked[b] {
                proof {
                    assert(has_edge(adj@, a as int, b as int));
                    lemma_step_reachable(adj@, roots@, a as int, b as int);
                    lemma_set_flag(marked@, b as int);
                }
                let ghost old_marked = marked@;
                let ghost old_waiting = waiting@;
                marked.set(b, true);
                waiting.push(b);
                assert forall|x: int, y: int|
                    0 <= x < adj@.len() && marked@[x] && x != a && !waiting@.contains(x as usize)
                        && has_edge(adj@, x, y) implies marked@[y] by {
                    assert(x != b) by {
                        if x == b {
                            assert(waiting@[waiting@.len() - 1] == b);
                        }
                    }
                    assert(old_marked[x]);
                    assert(!old_waiting.contains(x as usize)) by {
                        if old_waiting.contains(x as usize) {
                            let j = choose|j: int| 0 <= j < old_waiting.len() && old_waiting[j] == x;
                            assert(waiting@[j] == x);
                        }
                    }
                    assert(old_marked[y]);
                }
            }
            k += 1;
        }
        assert forall|x: int, y: int|
            0 <= x < adj@.len() && marked@[x] && !waiting@.contains(x as usize) && has_edge(
                adj@,
                x,
                y,
            ) implies marked@[y] by {
            if x == a {
                let j = choose|j: int| 0 <= j < adj@[x]@.len() && adj@[x]@[j] == y;
                assert(edges@[j] == y);
            }
        }
    }
    proof {
        assert forall|m: int| 0 <= m < n implies marked@[m] == reachable(adj@, roots@, m) by {
            if reachable(adj@, roots@, m) {
                let p = choose|p: Seq<int>| is_path(adj@, roots@, p) && #[trigger] p.last() == m;
                assert forall|x: int| is_root(adj@, roots@, x) implies marked@[x] by {
                    let j = choose|j: int| 0 <= j < roots@.len() && #[trigger] roots@[j] == x;
                    assert(roots@[j] < n);
                }
                assert forall|x: int, y: int|
                    0 <= x < adj@.len() && marked@[x] && has_edge(adj@, x, y) implies marked@[y] by {
                    assert(!waiting@.contains(x as usize));
                }
                lemma_closed_holds_reachable(adj@, roots@, marked@, p);
            }
        }
    }
    marked
}

/// The items whose flag is set, in their order.
pub open spec fn select<T>(items: Seq<T>, flags: Seq<bool>) -> Seq<T>
    decreases items.len(),
{
    if items.len() == 0 {
        Seq::empty()
    } else if 0 < flags.len() && flags.len() >= items.len() && flags[items.len() - 1] {
        select(items.drop_last(), flags).push(items.last())
    } else {
        select(items.drop_last(), flags)
    }
}

/// Keeps the items whose flag is set.
pub fn keep_selected<T>(items: Vec<T>, flags: &Vec<bool>) -> (r: Vec<T>)
    requires
        flags@.len() == items@.len(),
    ensures
        r@ == select(items@, flags@),
{
    let mut items = items;
    let ghost all = items@;
    let mut reversed: Vec<T> = Vec::new();
    // Take the items from the back, so that nothing has to be copied.
    while items.len() > 0
        invariant
            items@.len() <= all.len(),
            flags@.len() == all.len(),
            items@ == all.take(items@.len() as int),
            select(all, flags@) == select(items@, flags@) + reversed@.reverse(),
        decreases items@.len(),
    {
        let ghost before = items@;
        let ghost taken = reversed@;
        let k = items.len() - 1;
        let item = items.pop().unwrap();
        assert(items@ =~= before.drop_last());
        assert(items@ =~= all.take(items@.len() as int));
        if flags[k] {
            reversed.push(item);
            assert(reversed@.reverse() =~= seq![item] + taken.reverse());
            assert(select(before, flags@) =~= select(items@, flags@).push(item));
            assert(select(items@, flags@).push(item) + taken.reverse() =~= select(
                items@,
                flags@,
            ) + reversed@.reverse());
        }
    }
    assert(all.take(all.len() as int) =~= all);
    let mut r: Vec<T> = Vec::new();
    let ghost taken = reversed@;
    while reversed.len() > 0
        invariant
            reversed@.len() <= taken.len(),
            reversed@ == taken.take(reversed@.len() as int),
            r@ == taken.skip(reversed@.len() as int).reverse(),
        decreases reversed@.len(),
    {
        let ghost before = reversed@;
        let ghost out = r@;
        let item = reversed.pop().unwrap();
        r.push(item);
        assert(reversed@ =~= taken.take(reversed@.len() as int));
        assert(r@ =~= taken.skip(reversed@.len() as int).reverse());
    }
    assert(taken.skip(0) =~= taken);
    assert(select(items@, flags@) + taken.reverse() =~= taken.reverse());
    r
}

} // verus!
