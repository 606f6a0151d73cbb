//! Cycle detection by depth-first search on a directed graph given as
//! adjacency lists over the nodes `0..n`.
use vstd::prelude::*;

use crate::text::{first_where, lemma_first_where};

verus! {

/// Every edge of `adj` ends at a node of the graph.
pub open spec fn adj_ok(adj: Seq<Seq<usize>>) -> bool {
    &&& adj.len() <= usize::MAX
    &&& forall|i: int, k: int| 0 <= i < adj.len() && 0 <= k < adj[i].len() ==> #[trigger] adj[i][k] < adj.len()
}

/// `w` is a closed walk: at least two entries, ending where it starts, each
/// entry an edge to the next.
pub open spec fn index_cycle(adj: Seq<Seq<usize>>, w: Seq<usize>) -> bool {
    &&& w.len() >= 2
    &&& w[0] == w[w.len() - 1]
    &&& forall|k: int| 0 <= k < w.len() ==> #[trigger] w[k] < adj.len()
    &&& forall|k: int| 0 <= k < w.len() - 1 ==> #[trigger] adj[w[k] as int].contains(w[k + 1])
}

pub open spec fn has_index_cycle(adj: Seq<Seq<usize>>) -> bool {
    exists|w: Seq<usize>| index_cycle(adj, w)
}

/// The number of unvisited nodes.
pub open spec fn count_white(c: Seq<u8>) -> nat
    decreases c.len(),
{
    if c.len() == 0 {
        0
    } else {
        count_white(c.drop_last()) + if c.last() == 0 { 1nat } else { 0nat }
    }
}

pub proof fn lemma_count_white_update(c: Seq<u8>, i: int, x: u8)
    requires
        0 <= i < c.len(),
    ensures
        count_white(c.update(i, x)) + (if c[i] == 0 { 1int } else { 0int }) == count_white(c) + (if x == 0 { 1int } else { 0int }),
    decreases c.len(),
{
    let d = c.update(i, x);
    if i == c.len() - 1 {
        assert(d.drop_last() =~= c.drop_last());
    } else {
        assert(d.drop_last() =~= c.drop_last().update(i, x));
        lemma_count_white_update(c.drop_last(), i, x);
    }
}

pub proof fn lemma_count_white_zeros(c: Seq<u8>)
    requires
        forall|i: int| 0 <= i < c.len() ==> c[i] == 0,
    ensures
        count_white(c) == c.len(),
    decreases c.len(),
{
    if c.len() > 0 {
        lemma_count_white_zeros(c.drop_last());
    }
}

/// Every successor of the finished node `i` is finished, with a smaller rank.
#[verifier::opaque]
pub open spec fn finished_ok(adj: Seq<Seq<usize>>, colors: Seq<u8>, rank: Seq<usize>, i: int) -> bool {
    forall|k: int|
        0 <= k < adj[i].len() ==> colors[#[trigger] adj[i][k] as int] == 2 && rank[adj[i][k] as int] < rank[i]
}

#[verifier::spinoff_prover]
proof fn lemma_finished_frame(adj: Seq<Seq<usize>>, c: Seq<u8>, r: Seq<usize>, c2: Seq<u8>, r2: Seq<usize>, i: int)
    requires
        adj_ok(adj),
        0 <= i < adj.len(),
        finished_ok(adj, c, r, i),
        forall|v: int| 0 <= v < adj.len() && c[v] == 2 ==> #[trigger] c2[v] == 2 && r2[v] == r[v],
        r2[i] == r[i],
    ensures
        finished_ok(adj, c2, r2, i),
{
    reveal(finished_ok);
    assert forall|k: int| 0 <= k < adj[i].len() implies c2[#[trigger] adj[i][k] as int] == 2 && r2[adj[i][k] as int] < r2[i] by {
        let v = adj[i][k] as int;
        assert(v < adj.len());
        assert(c[v] == 2 && r[v] < r[i]);
        assert(c2[v] == 2 && r2[v] == r[v]);
    }
}

pub open spec fn inv_colors(adj: Seq<Seq<usize>>, colors: Seq<u8>) -> bool {
    &&& colors.len() == adj.len()
    &&& forall|i: int| 0 <= i < adj.len() ==> #[trigger] colors[i] <= 2
}

pub open spec fn inv_finished(adj: Seq<Seq<usize>>, colors: Seq<u8>, rank: Seq<usize>, counter: usize) -> bool {
    &&& rank.len() == adj.len()
    &&& forall|i: int| 0 <= i < adj.len() && #[trigger] colors[i] == 2 ==> rank[i] < counter && finished_ok(adj, colors, rank, i)
}

pub open spec fn inv_path(adj: Seq<Seq<usize>>, colors: Seq<u8>, path: Seq<usize>) -> bool {
    &&& forall|k: int| 0 <= k < path.len() ==> #[trigger] path[k] < adj.len() && colors[path[k] as int] == 1
    &&& forall|i: int| 0 <= i < adj.len() && #[trigger] colors[i] == 1 ==> path.contains(i as usize)
}

pub open spec fn inv_edges(adj: Seq<Seq<usize>>, path: Seq<usize>) -> bool {
    forall|k: int| 0 <= k < path.len() - 1 ==> #[trigger] adj[path[k] as int].contains(path[k + 1])
}

/// The search state: 0 unvisited, 1 on the current path, 2 finished with a
/// rank below `counter`.
pub open spec fn dfs_inv(adj: Seq<Seq<usize>>, colors: Seq<u8>, rank: Seq<usize>, path: Seq<usize>, counter: usize) -> bool {
    &&& adj_ok(adj)
    &&& inv_colors(adj, colors)
    &&& inv_finished(adj, colors, rank, counter)
    &&& inv_path(adj, colors, path)
    &&& inv_edges(adj, path)
    &&& counter + count_white(colors) + path.len() <= adj.len()
}

proof fn lemma_edges_push(adj: Seq<Seq<usize>>, path: Seq<usize>, u: usize)
    requires
        inv_edges(adj, path),
        path.len() > 0 ==> adj[path.last() as int].contains(u),
    ensures
        inv_edges(adj, path.push(u)),
{
    let p2 = path.push(u);
    assert forall|k: int| 0 <= k < p2.len() - 1 implies #[trigger] adj[p2[k] as int].contains(p2[k + 1]) by {
        assert(p2[k] == path[k]);
        if k < path.len() - 1 {
            assert(p2[k + 1] == path[k + 1]);
        }
    }
}

proof fn lemma_edges_pop(adj: Seq<Seq<usize>>, path: Seq<usize>, u: usize)
    requires
        inv_edges(adj, path.push(u)),
    ensures
        inv_edges(adj, path),
{
    let p1 = path.push(u);
    assert forall|k: int| 0 <= k < path.len() - 1 implies #[trigger] adj[path[k] as int].contains(path[k + 1]) by {
        assert(p1[k] == path[k]);
        assert(p1[k + 1] == path[k + 1]);
    }
}

proof fn lemma_dfs_enter(adj: Seq<Seq<usize>>, colors: Seq<u8>, rank: Seq<usize>, path: Seq<usize>, counter: usize, u: usize)
    requires
        dfs_inv(adj, colors, rank, path, counter),
        u < adj.len(),
        colors[u as int] == 0,
        path.len() > 0 ==> adj[path.last() as int].contains(u),
    ensures
        dfs_inv(adj, colors.update(u as int, 1), rank, path.push(u), counter),
        count_white(colors.update(u as int, 1)) < count_white(colors),
        !path.contains(u),
{
    lemma_count_white_update(colors, u as int, 1);
    let c2 = colors.update(u as int, 1);
    let p2 = path.push(u);
    if path.contains(u) {
        let t = choose|t: int| 0 <= t < path.len() && path[t] == u;
        assert(colors[path[t] as int] == 1);
    }
    assert forall|i: int| 0 <= i < adj.len() && #[trigger] c2[i] == 2 implies rank[i] < counter && finished_ok(adj, c2, rank, i) by {
        assert(colors[i] == 2);
        assert forall|v: int| 0 <= v < adj.len() && colors[v] == 2 implies #[trigger] c2[v] == 2 && rank[v] == rank[v] by {}
        lemma_finished_frame(adj, colors, rank, c2, rank, i);
    }
    assert forall|i: int| 0 <= i < adj.len() && #[trigger] c2[i] == 1 implies p2.contains(i as usize) by {
        if i == u as int {
            assert(p2[path.len() as int] == u);
        } else {
            assert(path.contains(i as usize));
            let t = choose|t: int| 0 <= t < path.len() && path[t] == i as usize;
            assert(p2[t] == i as usize);
        }
    }
    assert forall|k: int| 0 <= k < p2.len() implies #[trigger] p2[k] < adj.len() && c2[p2[k] as int] == 1 by {
        if k < path.len() {
            assert(p2[k] == path[k]);
            assert(path[k] < adj.len() && colors[path[k] as int] == 1);
        } else {
            assert(p2[k] == u);
        }
    }
    lemma_edges_push(adj, path, u);
}

proof fn lemma_dfs_finish(adj: Seq<Seq<usize>>, colors: Seq<u8>, rank: Seq<usize>, path: Seq<usize>, counter: usize, u: usize)
    requires
        dfs_inv(adj, colors, rank, path.push(u), counter),
        u < adj.len(),
        colors[u as int] == 1,
        !path.contains(u),
        forall|m: int| 0 <= m < adj[u as int].len() ==> colors[#[trigger] adj[u as int][m] as int] == 2
            && rank[adj[u as int][m] as int] < counter,
    ensures
        counter < usize::MAX,
        dfs_inv(adj, colors.update(u as int, 2), rank.update(u as int, counter), path, (counter + 1) as usize),
        count_white(colors.update(u as int, 2)) == count_white(colors),
{
    let p1 = path.push(u);
    lemma_count_white_update(colors, u as int, 2);
    let c2 = colors.update(u as int, 2);
    let r2 = rank.update(u as int, counter);
    let n2 = (counter + 1) as usize;
    assert forall|i: int| 0 <= i < adj.len() && #[trigger] c2[i] == 2 implies r2[i] < n2 && finished_ok(adj, c2, r2, i) by {
        if i != u as int {
            assert(colors[i] == 2);
            assert(rank[i] < counter);
            assert forall|v: int| 0 <= v < adj.len() && colors[v] == 2 implies #[trigger] c2[v] == 2 && r2[v] == rank[v] by {
                assert(v != u as int);
            }
            lemma_finished_frame(adj, colors, rank, c2, r2, i);
        } else {
            reveal(finished_ok);
            assert forall|m: int| 0 <= m < adj[i].len() implies c2[#[trigger] adj[i][m] as int] == 2 && r2[adj[i][m] as int] < r2[i] by {
                assert(colors[adj[i][m] as int] == 2);
                assert(adj[i][m] != u);
            }
        }
    }
    assert forall|i: int| 0 <= i < adj.len() && #[trigger] c2[i] == 1 implies path.contains(i as usize) by {
        assert(colors[i] == 1);
        assert(p1.contains(i as usize));
        let t = choose|t: int| 0 <= t < p1.len() && p1[t] == i as usize;
        if t == path.len() {
            assert(p1[t] == u);
            assert(i == u as int);
        } else {
            assert(path[t] == i as usize);
        }
    }
    assert forall|k: int| 0 <= k < path.len() implies #[trigger] path[k] < adj.len() && c2[path[k] as int] == 1 by {
        assert(p1[k] == path[k]);
        assert(p1[k] < adj.len() && colors[p1[k] as int] == 1);
        if path[k] == u {
            assert(path.contains(u));
        }
    }
    lemma_edges_pop(adj, path, u);
}

/// The suffix of `path` from `start`, followed by `v`.
pub open spec fn closing(path: Seq<usize>, start: int, v: usize) -> Seq<usize> {
    path.subrange(start, path.len() as int).push(v)
}

proof fn lemma_dfs_cycle(adj: Seq<Seq<usize>>, colors: Seq<u8>, path: Seq<usize>, start: int, v: usize)
    requires
        inv_path(adj, colors, path),
        inv_edges(adj, path),
        0 <= start < path.len(),
        path[start] == v,
        adj[path.last() as int].contains(v),
    ensures
        index_cycle(adj, closing(path, start, v)),
{
    let w = closing(path, start, v);
    let len = path.len() as int;
    assert(w[0] == path[start]);
    assert forall|k: int| 0 <= k < w.len() implies #[trigger] w[k] < adj.len() by {
        if k < w.len() - 1 {
            assert(w[k] == path[start + k]);
        }
    }
    assert forall|k: int| 0 <= k < w.len() - 1 implies #[trigger] adj[w[k] as int].contains(w[k + 1]) by {
        assert(w[k] == path[start + k]);
        if start + k < len - 1 {
            assert(adj[path[start + k] as int].contains(path[start + k + 1]));
            assert(w[k + 1] == path[start + k + 1]);
        } else {
            assert(w[k + 1] == v);
        }
    }
}

/// The nodes of `s` as integers.
pub open spec fn node_ints(s: Seq<usize>) -> Seq<int> {
    s.map_values(|x: usize| x as int)
}

pub open spec fn at_node(path: Seq<int>, u: int) -> spec_fn(int) -> bool {
    |t: int| path[t] == u
}

/// The search from node `u`, with the nodes of `path` entered and not yet
/// finished, and the nodes of `done` finished: a finished node is passed;
/// reaching a node on the path closes the cycle from its first place on the
/// path; otherwise each successor is searched in turn and `u` is finished.
pub open spec fn search_from(g: Seq<Seq<usize>>, path: Seq<int>, u: int, st: Result<Set<int>, Seq<int>>) -> Result<
    Set<int>,
    Seq<int>,
>
    decreases g.len() - path.len(), 0int, 0int,
{
    match st {
        Err(c) => Err(c),
        Ok(done) => if done.contains(u) {
            Ok(done)
        } else if path.contains(u) {
            Err(path.subrange(first_where(path.len() as int, at_node(path, u))->0, path.len() as int).push(u))
        } else if path.len() >= g.len() || !(0 <= u < g.len()) {
            Ok(done)
        } else {
            match search_all(g, path.push(u), node_ints(g[u]), 0, Ok(done)) {
                Err(c) => Err(c),
                Ok(d) => Ok(d.insert(u)),
            }
        },
    }
}

/// Searching from `cs[k..]` in turn.
pub open spec fn search_all(
    g: Seq<Seq<usize>>,
    path: Seq<int>,
    cs: Seq<int>,
    k: int,
    st: Result<Set<int>, Seq<int>>,
) -> Result<Set<int>, Seq<int>>
    decreases g.len() - path.len(), 1int, cs.len() - k,
{
    if k < 0 || k >= cs.len() || g.len() < path.len() {
        st
    } else {
        search_all(g, path, cs, k + 1, search_from(g, path, cs[k], st))
    }
}

/// The outcome of searching from every node in turn: the cycle that the
/// search closes first, or the set of all nodes when there is none.
pub open spec fn first_cycle(g: Seq<Seq<usize>>) -> Result<Set<int>, Seq<int>> {
    search_all(g, Seq::empty(), Seq::new(g.len(), |i: int| i), 0, Ok(Set::empty()))
}

/// The finished nodes.
pub open spec fn done_set(colors: Seq<u8>) -> Set<int> {
    Set::new(|i: int| 0 <= i < colors.len() && colors[i] == 2)
}

proof fn lemma_search_all_err(g: Seq<Seq<usize>>, path: Seq<int>, cs: Seq<int>, k: int, c: Seq<int>)
    ensures
        search_all(g, path, cs, k, Err(c)) == Err::<Set<int>, Seq<int>>(c),
    decreases cs.len() - k,
{
    if k < 0 || k >= cs.len() || g.len() < path.len() {
    } else {
        assert(search_from(g, path, cs[k], Err(c)) == Err::<Set<int>, Seq<int>>(c));
        lemma_search_all_err(g, path, cs, k + 1, c);
    }
}

proof fn lemma_node_ints_contains(s: Seq<usize>, x: usize)
    ensures
        node_ints(s).contains(x as int) <==> s.contains(x),
{
    if s.contains(x) {
        let t = choose|t: int| 0 <= t < s.len() && s[t] == x;
        assert(node_ints(s)[t] == x as int);
    }
    if node_ints(s).contains(x as int) {
        let t = choose|t: int| 0 <= t < node_ints(s).len() && node_ints(s)[t] == x as int;
        assert(s[t] == x);
    }
}

fn dfs(
    adj: &Vec<Vec<usize>>,
    u: usize,
    colors: &mut Vec<u8>,
    rank: &mut Vec<usize>,
    path: &mut Vec<usize>,
    counter: &mut usize,
) -> (r: Result<(), Vec<usize>>)
    requires
        dfs_inv(adj@.map_values(|a: Vec<usize>| a@), old(colors)@, old(rank)@, old(path)@, *old(counter)),
        u < adj.len(),
        old(colors)@[u as int] == 0,
        old(path)@.len() > 0 ==> adj@[old(path)@.last() as int]@.contains(u),
    ensures
        match r {
            Ok(()) => {
                &&& dfs_inv(adj@.map_values(|a: Vec<usize>| a@), final(colors)@, final(rank)@, final(path)@, *final(counter))
                &&& final(colors)@[u as int] == 2
                &&& final(path)@ == old(path)@
                &&& forall|i: int| 0 <= i < adj.len() && old(colors)@[i] == 2 ==> #[trigger] final(colors)@[i] == 2
                    && final(rank)@[i] == old(rank)@[i]
                &&& forall|i: int| 0 <= i < adj.len() ==> (#[trigger] final(colors)@[i] == 1) == (old(colors)@[i] == 1)
                &&& count_white(final(colors)@) < count_white(old(colors)@)
                &&& *final(counter) >= *old(counter)
            },
            Err(cycle) => index_cycle(adj@.map_values(|a: Vec<usize>| a@), cycle@),
        },
        match search_from(
            adj@.map_values(|a: Vec<usize>| a@),
            node_ints(old(path)@),
            u as int,
            Ok(done_set(old(colors)@)),
        ) {
            Ok(d) => r is Ok && done_set(final(colors)@) == d,
            Err(c) => r matches Err(cy) && node_ints(cy@) == c,
        },
    decreases count_white(old(colors)@),
{
    let ghost g = adj@.map_values(|a: Vec<usize>| a@);
    let ghost c0 = colors@;
    let ghost r0 = rank@;
    let ghost p0 = path@;
    let ghost n0 = *counter;
    let ghost s0 = done_set(colors@);
    let ghost p1 = node_ints(p0).push(u as int);
    let ghost cs = node_ints(g[u as int]);
    proof {
        assert(g[u as int] == adj@[u as int]@);
        if path@.len() > 0 {
            assert(g[path@.last() as int] == adj@[path@.last() as int]@);
        }
        lemma_dfs_enter(g, colors@, rank@, path@, *counter, u);
        lemma_node_ints_contains(p0, u);
        assert(!s0.contains(u as int));
        assert(node_ints(p0).len() < g.len());
        assert(search_from(g, node_ints(p0), u as int, Ok(s0)) == match search_all(g, p1, cs, 0, Ok(s0)) {
            Err(c) => Err(c),
            Ok(d) => Ok(d.insert(u as int)),
        });
    }
    colors.set(u, 1);
    path.push(u);
    proof {
        assert(node_ints(path@) =~= p1);
        assert(done_set(colors@) =~= s0);
    }
    let mut k: usize = 0;
    while k < adj[u].len()
        invariant
            g == adj@.map_values(|a: Vec<usize>| a@),
            u < adj.len(),
            c0.len() == adj.len(),
            r0.len() == adj.len(),
            c0 == old(colors)@,
            c0[u as int] == 0,
            !p0.contains(u),
            dfs_inv(g, colors@, rank@, path@, *counter),
            path@ == p0.push(u),
            colors@[u as int] == 1,
            forall|i: int| 0 <= i < adj.len() && c0[i] == 2 ==> #[trigger] colors@[i] == 2 && rank@[i] == r0[i],
            forall|i: int| 0 <= i < adj.len() ==> (#[trigger] colors@[i] == 1) == (c0[i] == 1 || i == u),
            count_white(colors@) < count_white(c0),
            *counter >= n0,
            k <= g[u as int].len(),
            forall|m: int| 0 <= m < k ==> colors@[#[trigger] g[u as int][m] as int] == 2 && rank@[g[u as int][m] as int] < *counter,
            p1 == node_ints(p0).push(u as int),
            node_ints(path@) == p1,
            cs == node_ints(g[u as int]),
            p1.len() <= g.len(),
            search_all(g, p1, cs, 0, Ok(s0)) == search_all(g, p1, cs, k as int, Ok(done_set(colors@))),
            s0 == done_set(c0),
            p0 == old(path)@,
            search_from(g, node_ints(p0), u as int, Ok(s0)) == match search_all(g, p1, cs, 0, Ok(s0)) {
                Err(c) => Err(c),
                Ok(d) => Ok(d.insert(u as int)),
            },
        decreases adj@[u as int].len() - k,
    {
        let v = adj[u][k];
        assert(g[u as int][k as int] == v);
        assert(v < adj.len());
        assert(cs[k as int] == v as int);
        let ghost cb = colors@;
        let ghost rb = rank@;
        let ghost nb = *counter;
        let ghost sb = done_set(colors@);
        proof {
            assert(search_all(g, p1, cs, k as int, Ok(sb)) == search_all(g, p1, cs, k + 1, search_from(g, p1, v as int, Ok(sb))));
        }
        if colors[v] == 1 {
            assert(path@.contains(v));
            let mut start: usize = 0;
            while path[start] != v
                invariant
                    start < path.len(),
                    path@.contains(v),
                    forall|t: int| 0 <= t < start ==> path@[t] != v,
                decreases path.len() - start,
            {
                start += 1;
                if start == path.len() {
                    proof {
                        let t = choose|t: int| 0 <= t < path@.len() && path@[t] == v;
                        assert(path@[t] != v);
                    }
                }
            }
            let mut cycle: Vec<usize> = Vec::new();
            let mut t: usize = start;
            while t < path.len()
                invariant
                    start <= t <= path.len(),
                    cycle@ == path@.subrange(start as int, t as int),
                decreases path.len() - t,
            {
                cycle.push(path[t]);
                assert(path@.subrange(start as int, t + 1) =~= path@.subrange(start as int, t as int).push(path@[t as int]));
                t += 1;
            }
            cycle.push(v);
            proof {
                assert(path@.last() == u);
                assert(g[u as int].contains(v));
                lemma_dfs_cycle(g, colors@, path@, start as int, v);
                assert(cycle@ =~= closing(path@, start as int, v));
                assert(!sb.contains(v as int));
                lemma_node_ints_contains(path@, v);
                assert forall|l: int| 0 <= l < start implies !#[trigger] at_node(p1, v as int)(l) by {
                    assert(p1[l] == path@[l] as int);
                }
                assert(at_node(p1, v as int)(start as int));
                lemma_first_where(p1.len() as int, at_node(p1, v as int), start as int);
                assert(node_ints(cycle@) =~= p1.subrange(start as int, p1.len() as int).push(v as int));
                assert(p1.contains(v as int));
                assert(search_from(g, p1, v as int, Ok(sb)) == Err::<Set<int>, Seq<int>>(node_ints(cycle@)));
                lemma_search_all_err(g, p1, cs, k + 1, node_ints(cycle@));
                assert(search_all(g, p1, cs, 0, Ok(s0)) == Err::<Set<int>, Seq<int>>(node_ints(cycle@)));
            }
            return Err(cycle);
        } else if colors[v] == 0 {
            proof {
                assert(path@.last() == u);
                assert(adj@[u as int]@.contains(v));
            }
            match dfs(adj, v, colors, rank, path, counter) {
                Ok(()) => {
                    assert(forall|i: int| 0 <= i < adj.len() && cb[i] == 2 ==> #[trigger] colors@[i] == 2 && rank@[i] == rb[i]);
                },
                Err(cycle) => {
                    proof {
                        assert(search_from(g, p1, v as int, Ok(sb)) == Err::<Set<int>, Seq<int>>(node_ints(cycle@)));
                        lemma_search_all_err(g, p1, cs, k + 1, node_ints(cycle@));
                        assert(search_all(g, p1, cs, 0, Ok(s0)) == Err::<Set<int>, Seq<int>>(node_ints(cycle@)));
                    }
                    return Err(cycle);
                },
            }
        } else {
            assert(sb.contains(v as int));
        }
        proof {
            assert(colors@[v as int] == 2 && rank@[v as int] < *counter);
            assert forall|m: int| 0 <= m < k + 1 implies colors@[#[trigger] g[u as int][m] as int] == 2 && rank@[g[u as int][m] as int] < *counter by {
                let w = g[u as int][m] as int;
                assert(w < adj.len());
                if m < k {
                    assert(cb[w] == 2 && rb[w] < nb);
                    assert(colors@[w] == 2 && rank@[w] == rb[w]);
                }
            }
        }
        k += 1;
    }
    proof {
        assert(search_all(g, p1, cs, k as int, Ok(done_set(colors@))) == Ok::<Set<int>, Seq<int>>(done_set(colors@)));
    }
    let ghost s1 = done_set(colors@);
    path.pop();
    assert(path@ =~= p0);
    proof {
        lemma_dfs_finish(g, colors@, rank@, path@, *counter, u);
    }
    colors.set(u, 2);
    rank.set(u, *counter);
    *counter = *counter + 1;
    proof {
        assert(done_set(colors@) =~= s1.insert(u as int));
    }
    Ok(())
}

/// Along a walk of finished nodes, ranks strictly fall from the start.
proof fn lemma_rank_walk(adj: Seq<Seq<usize>>, colors: Seq<u8>, rank: Seq<usize>, counter: usize, w: Seq<usize>, m: int)
    requires
        adj_ok(adj),
        inv_finished(adj, colors, rank, counter),
        forall|i: int| 0 <= i < adj.len() ==> #[trigger] colors[i] == 2,
        index_cycle(adj, w),
        1 <= m < w.len(),
    ensures
        rank[w[m] as int] < rank[w[0] as int],
    decreases m,
{
    let k = m - 1;
    assert(adj[w[k] as int].contains(w[k + 1]));
    assert(w[k] < adj.len());
    let i = w[k] as int;
    assert(colors[i] == 2);
    assert(finished_ok(adj, colors, rank, i));
    let kk = choose|kk: int| 0 <= kk < adj[i].len() && adj[i][kk] == w[m];
    reveal(finished_ok);
    assert(colors[adj[i][kk] as int] == 2 && rank[adj[i][kk] as int] < rank[i]);
    if m > 1 {
        lemma_rank_walk(adj, colors, rank, counter, w, m - 1);
    }
}

/// A cycle of the graph, or `None` exactly when it has none; the cycle is
/// the one that the search from the nodes in order closes first.
pub fn find_cycle(adj: &Vec<Vec<usize>>) -> (r: Option<Vec<usize>>)
    requires
        adj_ok(adj@.map_values(|a: Vec<usize>| a@)),
    ensures
        r is None <==> !has_index_cycle(adj@.map_values(|a: Vec<usize>| a@)),
        r matches Some(c) ==> index_cycle(adj@.map_values(|a: Vec<usize>| a@), c@),
        match first_cycle(adj@.map_values(|a: Vec<usize>| a@)) {
            Ok(_) => r is None,
            Err(c) => r matches Some(v) && node_ints(v@) == c,
        },
{
    let ghost g = adj@.map_values(|a: Vec<usize>| a@);
    let n = adj.len();
    let mut colors: Vec<u8> = Vec::new();
    let mut rank: Vec<usize> = Vec::new();
    let mut i: usize = 0;
    while i < n
        invariant
            n == adj.len(),
            i <= n,
            colors.len() == i,
            rank.len() == i,
            forall|l: int| 0 <= l < i ==> #[trigger] colors@[l] == 0,
        decreases n - i,
    {
        colors.push(0);
        rank.push(0);
        i += 1;
    }
    let mut path: Vec<usize> = Vec::new();
    let mut counter: usize = 0;
    proof {
        lemma_count_white_zeros(colors@);
    }
    let ghost all = Seq::new(n as nat, |j: int| j);
    proof {
        assert(done_set(colors@) =~= Set::<int>::empty());
    }
    let mut i: usize = 0;
    while i < n
        invariant
            g == adj@.map_values(|a: Vec<usize>| a@),
            n == adj.len(),
            i <= n,
            dfs_inv(g, colors@, rank@, path@, counter),
            path@.len() == 0,
            forall|l: int| 0 <= l < i ==> #[trigger] colors@[l] != 0,
            all == Seq::new(n as nat, |j: int| j),
            first_cycle(g) == search_all(g, Seq::empty(), all, i as int, Ok(done_set(colors@))),
        decreases n - i,
    {
        let ghost sb = done_set(colors@);
        proof {
            assert(all[i as int] == i as int);
            assert(search_all(g, Seq::empty(), all, i as int, Ok(sb)) == search_all(
                g,
                Seq::empty(),
                all,
                i + 1,
                search_from(g, Seq::empty(), i as int, Ok(sb)),
            ));
            assert(node_ints(path@) =~= Seq::<int>::empty());
        }
        if colors[i] == 0 {
            match dfs(adj, i, &mut colors, &mut rank, &mut path, &mut counter) {
                Ok(()) => {},
                Err(cycle) => {
                    proof {
                        lemma_search_all_err(g, Seq::empty(), all, i + 1, node_ints(cycle@));
                    }
                    return Some(cycle);
                },
            }
        } else {
            proof {
                if colors@[i as int] == 1 {
                    assert(path@.contains(i));
                }
                assert(sb.contains(i as int));
            }
        }
        i += 1;
    }
    proof {
        assert(search_all(g, Seq::empty(), all, i as int, Ok(done_set(colors@))) == Ok::<Set<int>, Seq<int>>(done_set(colors@)));
    }
    proof {
        assert forall|l: int| 0 <= l < g.len() implies #[trigger] colors@[l] == 2 by {
            assert(colors@[l] != 0);
            if colors@[l] == 1 {
                assert(path@.contains(l as usize));
            }
        }
        if has_index_cycle(g) {
            let w = choose|w: Seq<usize>| index_cycle(g, w);
            lemma_rank_walk(g, colors@, rank@, counter, w, w.len() - 1);
        }
    }
    None
}

} // verus!
