//! Finite graphs without cycles.

use vstd::prelude::*;

verus! {

/// A numbering of the nodes in which every edge leads to a node of the graph
/// with a smaller number.
pub open spec fn ranked(graph: Seq<Seq<usize>>, rank: spec_fn(int) -> nat) -> bool {
    &&& forall|i: int| 0 <= i < graph.len() ==> #[trigger] rank(i) <= graph.len()
    &&& forall|i: int, j: int|
        0 <= i < graph.len() && 0 <= j < graph[i].len() ==> (#[trigger] graph[i][j])
            < graph.len() && rank(graph[i][j] as int) < rank(i)
}

/// The edges lead to nodes of the graph, and none of them closes a cycle.
pub open spec fn acyclic(graph: Seq<Seq<usize>>) -> bool {
    exists|rank: spec_fn(int) -> nat| ranked(graph, rank)
}

/// The number of a node in some such numbering.
pub open spec fn rank_of(graph: Seq<Seq<usize>>, node: int) -> nat {
    (choose|rank: spec_fn(int) -> nat| ranked(graph, rank))(node)
}

/// Edges of an acyclic graph lead to nodes of smaller rank.
pub proof fn rank_drops(graph: Seq<Seq<usize>>, i: int, j: int)
    requires
        acyclic(graph),
        0 <= i < graph.len(),
        0 <= j < graph[i].len(),
    ensures
        graph[i][j] < graph.len(),
        rank_of(graph, graph[i][j] as int) < rank_of(graph, i),
        rank_of(graph, i) <= graph.len(),
{
    let rank = choose|rank: spec_fn(int) -> nat| ranked(graph, rank);
    assert(rank(i) <= graph.len());
    assert(graph[i][j] < graph.len());
}

/// Ranks are no larger than the graph.
pub proof fn rank_bound(graph: Seq<Seq<usize>>, i: int)
    requires
        acyclic(graph),
        0 <= i < graph.len(),
    ensures
        rank_of(graph, i) <= graph.len(),
{
    let rank = choose|rank: spec_fn(int) -> nat| ranked(graph, rank);
    assert(rank(i) <= graph.len());
}

/// What adjacency lists hold.
pub open spec fn adjacency(lists: Seq<Vec<usize>>) -> Seq<Seq<usize>> {
    Seq::new(lists.len(), |i: int| lists[i]@)
}

/// Some successor of the node has not been reached.
spec fn blocked(graph: Seq<Seq<usize>>, seen: Seq<bool>, k: int) -> bool {
    exists|j: int| 0 <= j < graph[k].len() && !seen[(#[trigger] graph[k][j]) as int]
}

/// Where every node that was not reached has a successor that was not reached,
/// all nodes of an acyclic graph were reached.
proof fn reaches_all(
    graph: Seq<Seq<usize>>,
    rank: spec_fn(int) -> nat,
    seen: Seq<bool>,
    i: int,
)
    requires
        ranked(graph, rank),
        seen.len() == graph.len(),
        0 <= i < graph.len(),
        forall|k: int|
            0 <= k < graph.len() && !seen[k] ==> #[trigger] blocked(graph, seen, k),
    ensures
        seen[i],
    decreases rank(i),
{
    if !seen[i] {
        assert(blocked(graph, seen, i));
        let j = choose|j: int| 0 <= j < graph[i].len() && !seen[(#[trigger] graph[i][j]) as int];
        assert(rank(graph[i][j] as int) < rank(i));
        reaches_all(graph, rank, seen, graph[i][j] as int);
    }
}

/// Whether every successor of a node has been reached.
fn all_seen(edges: &Vec<usize>, seen: &Vec<bool>) -> (answer: bool)
    requires
        forall|j: int| 0 <= j < edges@.len() ==> (#[trigger] edges@[j]) < seen@.len(),
    ensures
        answer == forall|j: int| 0 <= j < edges@.len() ==> seen@[(#[trigger] edges@[j]) as int],
{
    for j in 0..edges.len()
        invariant
            forall|k: int| 0 <= k < edges@.len() ==> (#[trigger] edges@[k]) < seen@.len(),
            forall|k: int| 0 <= k < j ==> seen@[(#[trigger] edges@[k]) as int],
    {
        if !seen[edges[j]] {
            assert(!seen@[edges@[j as int] as int]);
            return false;
        }
    }
    true
}

/// Decides whether a graph is acyclic.
pub fn is_acyclic(lists: &Vec<Vec<usize>>) -> (answer: bool)
    ensures
        answer == acyclic(adjacency(lists@)),
{
    let ghost graph = adjacency(lists@);
    let n: usize = lists.len();
    for i in 0..n
        invariant
            n == lists@.len(),
            graph == adjacency(lists@),
            forall|k: int, j: int|
                0 <= k < i && 0 <= j < graph[k].len() ==> (#[trigger] graph[k][j]) < n,
    {
        let edges = &lists[i];
        for j in 0..edges.len()
            invariant
                i < n == lists@.len(),
                edges@ == lists@[i as int]@,
                graph == adjacency(lists@),
                forall|m: int| 0 <= m < j ==> (#[trigger] graph[i as int][m]) < n,
        {
            if edges[j] >= n {
                proof {
                    if acyclic(graph) {
                        rank_drops(graph, i as int, j as int);
                    }
                }
                return false;
            }
        }
    }
    let mut seen: Vec<bool> = Vec::new();
    for i in 0..n
        invariant
            seen@ == Seq::new(i as nat, |k: int| false),
    {
        seen.push(false);
    }
    proof {
        unseen_all(n as nat);
    }
    let mut count: usize = 0;
    let ghost mut order: Map<int, nat> = Map::empty();
    let mut progress = true;
    while progress
        invariant
            n == lists@.len() == seen@.len(),
            graph == adjacency(lists@),
            forall|k: int, j: int|
                0 <= k < n && 0 <= j < graph[k].len() ==> (#[trigger] graph[k][j]) < n,
            count <= n,
            forall|k: int| 0 <= k < n && #[trigger] seen@[k] ==> order[k] < count,
            forall|k: int, j: int|
                0 <= k < n && 0 <= j < graph[k].len() && seen@[k] ==> seen@[(
                #[trigger] graph[k][j]) as int] && order[graph[k][j] as int] < order[k],
            unseen(seen@) + count == n,
            !progress ==> forall|k: int|
                0 <= k < n && !seen@[k] ==> #[trigger] blocked(graph, seen@, k),
        decreases n - count, (if progress { 1int } else { 0int }),
    {
        progress = false;
        let ghost count_before = count;
        for i in 0..n
            invariant
                n == lists@.len() == seen@.len(),
                graph == adjacency(lists@),
                forall|k: int, j: int|
                    0 <= k < n && 0 <= j < graph[k].len() ==> (#[trigger] graph[k][j]) < n,
                count_before <= count <= n,
                progress == (count > count_before),
                forall|k: int| 0 <= k < n && #[trigger] seen@[k] ==> order[k] < count,
                forall|k: int, j: int|
                    0 <= k < n && 0 <= j < graph[k].len() && seen@[k] ==> seen@[(
                    #[trigger] graph[k][j]) as int] && order[graph[k][j] as int] < order[k],
                unseen(seen@) + count == n,
                !progress ==> forall|k: int|
                    0 <= k < i && !seen@[k] ==> #[trigger] blocked(graph, seen@, k),
        {
            if !seen[i] {
                assert forall|j: int| 0 <= j < lists@[i as int]@.len() implies (
                #[trigger] lists@[i as int]@[j]) < n by {
                    assert(graph[i as int][j] < n);
                }
                let ready = all_seen(&lists[i], &seen);
                if ready {
                    let ghost seen_before = seen@;
                    proof {
                        unseen_update(seen@, i as int);
                        order = order.insert(i as int, count as nat);
                    }
                    seen[i] = true;
                    count = count + 1;
                    progress = true;
                    assert forall|k: int, j: int|
                        0 <= k < n && 0 <= j < graph[k].len() && seen@[k] implies seen@[(
                    #[trigger] graph[k][j]) as int] && order[graph[k][j] as int] < order[k] by {
                        if k == i {
                            assert(graph[k][j] == lists@[i as int]@[j]);
                            assert(seen_before[graph[k][j] as int]);
                        } else {
                            assert(seen_before[k]);
                            assert(seen_before[graph[k][j] as int]);
                        }
                    }
                } else {
                    let ghost j = choose|j: int|
                        0 <= j < lists@[i as int]@.len() && !seen@[(
                        #[trigger] lists@[i as int]@[j]) as int];
                    assert(!seen@[graph[i as int][j] as int]);
                    assert(blocked(graph, seen@, i as int));
                }
            }
        }
    }
    for i in 0..n
        invariant
            n == lists@.len() == seen@.len(),
            graph == adjacency(lists@),
            forall|k: int| 0 <= k < i ==> #[trigger] seen@[k],
            forall|k: int|
                0 <= k < n && !seen@[k] ==> #[trigger] blocked(graph, seen@, k),
    {
        if !seen[i] {
            proof {
                if acyclic(graph) {
                    let rank = choose|rank: spec_fn(int) -> nat| ranked(graph, rank);
                    reaches_all(graph, rank, seen@, i as int);
                }
            }
            return false;
        }
    }
    proof {
        let rank = |k: int| order[k];
        assert forall|k: int| 0 <= k < graph.len() implies #[trigger] rank(k) <= graph.len() by {
            assert(seen@[k]);
        }
        assert forall|k: int, j: int| 0 <= k < graph.len() && 0 <= j < graph[k].len() implies (
        #[trigger] graph[k][j]) < graph.len() && rank(graph[k][j] as int) < rank(k) by {
            assert(seen@[k]);
        }
        assert(ranked(graph, rank));
    }
    true
}

/// How many nodes have not been reached.
pub closed spec fn unseen(seen: Seq<bool>) -> nat
    decreases seen.len(),
{
    if seen.len() == 0 {
        0
    } else {
        unseen(seen.drop_last()) + if seen.last() {
            0nat
        } else {
            1nat
        }
    }
}

pub(crate) proof fn unseen_update(seen: Seq<bool>, i: int)
    requires
        0 <= i < seen.len(),
        !seen[i],
    ensures
        unseen(seen.update(i, true)) + 1 == unseen(seen),
    decreases seen.len(),
{
    let after = seen.update(i, true);
    if i == seen.len() - 1 {
        assert(after.drop_last() =~= seen.drop_last());
    } else {
        unseen_update(seen.drop_last(), i);
        assert(after.drop_last() =~= seen.drop_last().update(i, true));
    }
}

proof fn unseen_all(n: nat)
    ensures
        unseen(Seq::new(n, |k: int| false)) == n,
    decreases n,
{
    if n > 0 {
        unseen_all((n - 1) as nat);
        assert(Seq::new(n, |k: int| false).drop_last() =~= Seq::new((n - 1) as nat, |k: int| false));
    }
}

/// How many of the first `n` nodes have a number below that of a node.
spec fn below(rank: spec_fn(int) -> nat, n: int, bound: nat) -> nat
    decreases n,
{
    if n <= 0 {
        0
    } else {
        below(rank, n - 1, bound) + if rank(n - 1) < bound {
            1nat
        } else {
            0nat
        }
    }
}

proof fn below_grows(rank: spec_fn(int) -> nat, n: int, a: nat, b: nat, k: int)
    requires
        a < b,
        0 <= k < n,
        a <= rank(k) < b,
    ensures
        below(rank, n, a) < below(rank, n, b),
    decreases n,
{
    below_keeps(rank, n - 1, a, b);
    if k < n - 1 {
        below_grows(rank, n - 1, a, b, k);
    }
}

proof fn below_keeps(rank: spec_fn(int) -> nat, n: int, a: nat, b: nat)
    requires
        a <= b,
    ensures
        below(rank, n, a) <= below(rank, n, b),
        n >= 0 ==> below(rank, n, b) <= n,
    decreases n,
{
    if n > 0 {
        below_keeps(rank, n - 1, a, b);
    }
}

/// A graph has no cycles if its nodes can be numbered, with whatever numbers, so
/// that every edge leads to a node of the graph with a smaller one.
pub proof fn any_descending_numbering_will_do(
    graph: Seq<Seq<usize>>,
    rank: spec_fn(int) -> nat,
)
    requires
        forall|i: int, j: int|
            0 <= i < graph.len() && 0 <= j < graph[i].len() ==> (#[trigger] graph[i][j])
                < graph.len() && rank(graph[i][j] as int) < rank(i),
    ensures
        acyclic(graph),
{
    let n = graph.len() as int;
    let packed = |i: int| below(rank, n, rank(i));
    assert forall|i: int| 0 <= i < n implies #[trigger] packed(i) <= n by {
        below_keeps(rank, n, rank(i), rank(i));
    }
    assert forall|i: int, j: int| 0 <= i < n && 0 <= j < graph[i].len() implies (
    #[trigger] graph[i][j]) < n && packed(graph[i][j] as int) < packed(i) by {
        let k = graph[i][j] as int;
        below_grows(rank, n, rank(k), rank(i), k);
    }
    assert(ranked(graph, packed));
}

/// In a graph without cycles no way along its edges leads back to where it came
/// from.
pub proof fn no_way_leads_back(graph: Seq<Seq<usize>>, way: Seq<int>)
    requires
        acyclic(graph),
        way.len() > 1,
        forall|k: int|
            0 <= k < way.len() - 1 ==> 0 <= #[trigger] way[k] < graph.len() && exists|j: int|
                0 <= j < graph[way[k]].len() && #[trigger] graph[way[k]][j] == way[k + 1],
    ensures
        way[0] != way.last(),
        rank_of(graph, way.last()) < rank_of(graph, way[0]),
    decreases way.len(),
{
    let k = way.len() - 2;
    assert(0 <= way[k] < graph.len());
    let j = choose|j: int| 0 <= j < graph[way[k]].len() && #[trigger] graph[way[k]][j] == way[k + 1];
    rank_drops(graph, way[k], j);
    if k > 0 {
        let shorter = way.drop_last();
        assert forall|m: int| 0 <= m < shorter.len() - 1 implies 0 <= #[trigger] shorter[m]
            < graph.len() && exists|j: int|
            0 <= j < graph[shorter[m]].len() && #[trigger] graph[shorter[m]][j] == shorter[m
                + 1] by {
            assert(0 <= way[m] < graph.len());
        }
        no_way_leads_back(graph, shorter);
    }
}

} // verus!
