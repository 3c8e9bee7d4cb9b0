//! The directed graph that holds the task dependencies: `petgraph`'s
//! `Graph`, behind the trusted items that state what its methods do.
//!
//! A graph is seen as its fields hold it: the node weights by node index;
//! the edges by edge index, each as source node, target node and weight; and
//! for each node the edges of its outgoing list and of its incoming list, in
//! list order (the most recently linked first).

use vstd::prelude::*;

verus! {

/// `petgraph::graph::Graph`, carried as an opaque value.
#[verifier::external_type_specification]
#[verifier::external_body]
#[verifier::reject_recursive_types(N)]
#[verifier::reject_recursive_types(E)]
#[verifier::reject_recursive_types(Ty)]
#[verifier::reject_recursive_types(Ix)]
pub struct ExGraph<N, E, Ty, Ix>(petgraph::graph::Graph<N, E, Ty, Ix>);

/// `petgraph::Directed`, the marker of a graph with directed edges.
#[verifier::external_type_specification]
#[verifier::external_body]
pub struct ExDirected(petgraph::Directed);

/// The node weights of a graph, by node index (its `nodes` field).
pub uninterp spec fn graph_nodes(g: petgraph::graph::Graph<u128, u8>) -> Seq<u128>;

/// The edges of a graph, by edge index (its `edges` field): each as source
/// node index, target node index and weight.
pub uninterp spec fn graph_edges(g: petgraph::graph::Graph<u128, u8>) -> Seq<(usize, usize, u8)>;

/// For each node, the edge indices of its outgoing list, from the head
/// (`next[0]` of the node, then of each edge).
pub uninterp spec fn graph_outs(g: petgraph::graph::Graph<u128, u8>) -> Seq<Seq<usize>>;

/// For each node, the edge indices of its incoming list, from the head
/// (`next[1]` of the node, then of each edge).
pub uninterp spec fn graph_ins(g: petgraph::graph::Graph<u128, u8>) -> Seq<Seq<usize>>;

/// What `toposort` returns for a graph of `n` nodes with these successor
/// lists and predecessor lists (in list order): the node indices in the
/// order the search finishes them, or the index of a node it found on a cycle.
pub uninterp spec fn toposorted(n: nat, succs: Seq<Seq<usize>>, preds: Seq<Seq<usize>>) -> Result<Seq<usize>, usize>;

/// The largest node or edge index the graph's `u32` indices can hold, which
/// also marks the end of an edge list.
pub open spec fn index_end() -> nat {
    0xFFFF_FFFF
}

/// The target nodes of the edges of a list, in order.
pub open spec fn targets(es: Seq<(usize, usize, u8)>, l: Seq<usize>) -> Seq<usize> {
    l.map_values(|e: usize| es[e as int].1)
}

/// The source nodes and weights of the edges of a list, in order.
pub open spec fn sources(es: Seq<(usize, usize, u8)>, l: Seq<usize>) -> Seq<(usize, u8)> {
    l.map_values(|e: usize| (es[e as int].0, es[e as int].2))
}

/// The successors of each of the `n` nodes, in list order.
pub open spec fn succ_lists(n: nat, es: Seq<(usize, usize, u8)>, outs: Seq<Seq<usize>>) -> Seq<Seq<usize>> {
    Seq::new(n, |b: int| targets(es, outs[b]))
}

/// The predecessors of each of the `n` nodes, in list order.
pub open spec fn pred_lists(n: nat, es: Seq<(usize, usize, u8)>, ins: Seq<Seq<usize>>) -> Seq<Seq<usize>> {
    Seq::new(n, |b: int| sources(es, ins[b]).map_values(|p: (usize, u8)| p.0))
}

/// What any graph of `n` nodes satisfies: its edge indices fit the graph's
/// `u32` indices, every edge joins two nodes, and
/// each node's outgoing (incoming) list holds each edge that starts (ends)
/// at it, once, and no other.
pub open spec fn graph_ok(n: nat, es: Seq<(usize, usize, u8)>, outs: Seq<Seq<usize>>, ins: Seq<Seq<usize>>) -> bool {
    &&& outs.len() == n
    &&& ins.len() == n
    &&& es.len() <= index_end()
    &&& forall|e: int| 0 <= e < es.len() ==> (#[trigger] es[e]).0 < n && es[e].1 < n
    &&& forall|b: int| 0 <= b < n ==> (#[trigger] outs[b]).no_duplicates() && ins[b].no_duplicates()
    &&& forall|b: int, e: usize| 0 <= b < n ==> (#[trigger] outs[b].contains(e) <==> (e < es.len() && es[e as int].0 == b))
    &&& forall|b: int, e: usize| 0 <= b < n ==> (#[trigger] ins[b].contains(e) <==> (e < es.len() && es[e as int].1 == b))
}

/// The first edge of a list that ends at `b`.
pub open spec fn first_to(es: Seq<(usize, usize, u8)>, l: Seq<usize>, b: usize) -> Option<usize>
    decreases l.len(),
{
    if l.len() == 0 {
        None
    } else if es[l[0] as int].1 == b {
        Some(l[0])
    } else {
        first_to(es, l.drop_first(), b)
    }
}

/// The test that an index is not `a`.
pub open spec fn other_than(a: usize) -> spec_fn(usize) -> bool {
    |x: usize| x != a
}

/// The list with edge index `e` taken out.
pub open spec fn without_edge(l: Seq<usize>, e: usize) -> Seq<usize> {
    l.filter(other_than(e))
}

/// The list with edge index `from` renamed `to`.
pub open spec fn rename_edge(l: Seq<usize>, from: usize, to: usize) -> Seq<usize> {
    l.map_values(|x: usize| if x == from { to } else { x })
}

/// The nodes of a list other than `a`, with node `from` renamed `to`.
pub open spec fn drop_move(l: Seq<usize>, a: usize, from: usize, to: usize) -> Seq<usize> {
    l.filter(other_than(a)).map_values(|x: usize| if x == from { to } else { x })
}

/// The test that a (node, weight) pair's node is not `a`.
pub open spec fn pair_other_than(a: usize) -> spec_fn((usize, u8)) -> bool {
    |p: (usize, u8)| p.0 != a
}

/// The (node, weight) pairs of a list whose node is not `a`, with node
/// `from` renamed `to`.
pub open spec fn drop_move_pairs(l: Seq<(usize, u8)>, a: usize, from: usize, to: usize) -> Seq<(usize, u8)> {
    l.filter(pair_other_than(a)).map_values(|p: (usize, u8)| (if p.0 == from { to } else { p.0 }, p.1))
}

/// The test that an index is `a`.
pub open spec fn equal_to(a: usize) -> spec_fn(usize) -> bool {
    |x: usize| x == a
}

/// How many entries of a list are `a`.
pub open spec fn count_of(l: Seq<usize>, a: usize) -> nat {
    l.filter(equal_to(a)).len()
}

/// Whether some edge of `es` points from node `a` to node `b`.
pub open spec fn has_link(es: Seq<(usize, usize, u8)>, a: usize, b: usize) -> bool {
    exists|k: int| 0 <= k < es.len() && (#[trigger] es[k]).0 == a && es[k].1 == b
}

/// The edges of a graph taken as node pairs: the edges `es` point from a
/// node to another exactly when the edges `fs` do.
pub open spec fn same_links(es: Seq<(usize, usize, u8)>, fs: Seq<(usize, usize, u8)>) -> bool {
    &&& forall|k: int| 0 <= k < es.len() ==> has_link(fs, (#[trigger] es[k]).0, es[k].1)
    &&& forall|j: int| 0 <= j < fs.len() ==> has_link(es, (#[trigger] fs[j]).0, fs[j].1)
}

/// The edges of `es` into node `a`, newest first, as source and weight, for
/// edges listed oldest first.
pub open spec fn incoming(es: Seq<(usize, usize, u8)>, a: usize) -> Seq<(usize, u8)>
    decreases es.len(),
{
    if es.len() == 0 {
        seq![]
    } else if es.last().1 == a {
        seq![(es.last().0, es.last().2)] + incoming(es.drop_last(), a)
    } else {
        incoming(es.drop_last(), a)
    }
}

/// The edges of `es` out of node `a`, newest first, as target, for edges
/// listed oldest first.
pub open spec fn outgoing(es: Seq<(usize, usize, u8)>, a: usize) -> Seq<usize>
    decreases es.len(),
{
    if es.len() == 0 {
        seq![]
    } else if es.last().0 == a {
        seq![es.last().1] + outgoing(es.drop_last(), a)
    } else {
        outgoing(es.drop_last(), a)
    }
}

/// The edges that neither start nor end at node `a`, in order.
pub open spec fn detach(es: Seq<(usize, usize, u8)>, a: usize) -> Seq<(usize, usize, u8)>
    decreases es.len(),
{
    if es.len() == 0 {
        seq![]
    } else if es.last().0 == a || es.last().1 == a {
        detach(es.drop_last(), a)
    } else {
        detach(es.drop_last(), a).push(es.last())
    }
}

/// The edges with node index `from` renamed `to` at both ends.
pub open spec fn move_node(es: Seq<(usize, usize, u8)>, from: usize, to: usize) -> Seq<(usize, usize, u8)> {
    es.map_values(|r: (usize, usize, u8)| (if r.0 == from { to } else { r.0 }, if r.1 == from { to } else { r.1 }, r.2))
}

/// Whether `v` lists each of the `n` nodes once, every edge's source before
/// its target.
pub open spec fn is_topo_order(n: nat, es: Seq<(usize, usize, u8)>, v: Seq<usize>) -> bool {
    &&& v.len() == n
    &&& forall|i: int| 0 <= i < v.len() ==> (#[trigger] v[i]) < n
    &&& forall|i: int, j: int| 0 <= i < j < v.len() ==> (#[trigger] v[i]) != (#[trigger] v[j])
    &&& forall|k: int, i: int, j: int|
        #![trigger es[k], v[i], v[j]]
        0 <= k < es.len() && 0 <= i < v.len() && 0 <= j < v.len() && v[i] == es[k].0 && v[j] == es[k].1 ==> i < j
}

/// Whether the nodes can be ordered with every edge pointing forward: the
/// graph has no cycle.
pub open spec fn acyclic(n: nat, es: Seq<(usize, usize, u8)>) -> bool {
    exists|v: Seq<usize>| is_topo_order(n, es, v)
}

/// Whether the lists of a graph of `n` nodes hold, node by node, the edges
/// `h` (listed oldest first) newest first: each node's outgoing list leads
/// to the targets of the edges of `h` out of it and its incoming list comes
/// from the sources of those into it; the graph has as many edges as `h`,
/// and every edge of `h` joins two of the nodes.
pub open spec fn linked(n: nat, es: Seq<(usize, usize, u8)>, outs: Seq<Seq<usize>>, ins: Seq<Seq<usize>>, h: Seq<(usize, usize, u8)>) -> bool {
    &&& es.len() == h.len()
    &&& forall|k: int| 0 <= k < h.len() ==> (#[trigger] h[k]).0 < n && h[k].1 < n
    &&& forall|b: usize| b < n ==> #[trigger] outgoing(h, b) == targets(es, outs[b as int])
    &&& forall|b: usize| b < n ==> #[trigger] incoming(h, b) == sources(es, ins[b as int])
}

/// The successors of each of the `n` nodes, newest edge first, for edges
/// listed oldest first.
pub open spec fn succs_of(n: nat, h: Seq<(usize, usize, u8)>) -> Seq<Seq<usize>> {
    Seq::new(n, |b: int| outgoing(h, b as usize))
}

/// The predecessors of each of the `n` nodes, newest edge first, for edges
/// listed oldest first.
pub open spec fn preds_of(n: nat, h: Seq<(usize, usize, u8)>) -> Seq<Seq<usize>> {
    Seq::new(n, |b: int| incoming(h, b as usize).map_values(|p: (usize, u8)| p.0))
}

/// One more edge, listed last, is the newest out of its source and into
/// its target.
pub proof fn lemma_edges_push(h: Seq<(usize, usize, u8)>, r: (usize, usize, u8), c: usize)
    ensures
        outgoing(h.push(r), c) == if r.0 == c { seq![r.1] + outgoing(h, c) } else { outgoing(h, c) },
        incoming(h.push(r), c) == if r.1 == c { seq![(r.0, r.2)] + incoming(h, c) } else { incoming(h, c) },
{
    assert(h.push(r).drop_last() =~= h);
}

/// A list without an index it does not hold is the list itself.
pub proof fn lemma_without_absent(l: Seq<usize>, e: usize)
    requires
        !l.contains(e),
    ensures
        without_edge(l, e) == l,
    decreases l.len(),
{
    reveal(Seq::filter);
    if l.len() > 0 {
        let d = l.drop_last();
        assert(!d.contains(e)) by {
            if d.contains(e) {
                let i = choose|i: int| 0 <= i < d.len() && d[i] == e;
                assert(l[i] == e);
            }
        }
        assert(l.last() != e) by {
            if l.last() == e {
                assert(l[l.len() - 1] == e);
            }
        }
        lemma_without_absent(d, e);
        assert(d.push(l.last()) =~= l);
    }
}

/// Adding an edge `(a, b, w)` to a graph whose lists hold the edges `h`
/// gives a graph whose lists hold `h` with that edge last.
pub proof fn lemma_link_add(n: nat, es: Seq<(usize, usize, u8)>, outs: Seq<Seq<usize>>, ins: Seq<Seq<usize>>,
    h: Seq<(usize, usize, u8)>, a: usize, b: usize, w: u8)
    requires
        graph_ok(n, es, outs, ins),
        linked(n, es, outs, ins, h),
        a < n,
        b < n,
        es.len() < index_end(),
    ensures
        linked(n, es.push((a, b, w)), outs.update(a as int, seq![es.len() as usize] + outs[a as int]),
            ins.update(b as int, seq![es.len() as usize] + ins[b as int]), h.push((a, b, w))),
{
    let e = es.len() as usize;
    let es2 = es.push((a, b, w));
    let outs2 = outs.update(a as int, seq![e] + outs[a as int]);
    let ins2 = ins.update(b as int, seq![e] + ins[b as int]);
    let h2 = h.push((a, b, w));
    assert forall|k: int| 0 <= k < h2.len() implies (#[trigger] h2[k]).0 < n && h2[k].1 < n by {
        if k < h.len() {
            assert(h2[k] == h[k]);
        }
    }
    assert forall|c: usize| c < n implies #[trigger] outgoing(h2, c) == targets(es2, outs2[c as int]) by {
        lemma_edges_push(h, (a, b, w), c);
        let l = outs[c as int];
        assert forall|i: int| 0 <= i < l.len() implies l[i] < es.len() by {
            assert(outs[c as int].contains(l[i]));
        }
        assert(targets(es2, l) =~= targets(es, l));
        assert(outgoing(h, c) == targets(es, l));
        if c == a {
            assert(targets(es2, seq![e] + l) =~= seq![b] + targets(es2, l));
        }
    }
    assert forall|c: usize| c < n implies #[trigger] incoming(h2, c) == sources(es2, ins2[c as int]) by {
        lemma_edges_push(h, (a, b, w), c);
        let l = ins[c as int];
        assert forall|i: int| 0 <= i < l.len() implies l[i] < es.len() by {
            assert(ins[c as int].contains(l[i]));
        }
        assert(sources(es2, l) =~= sources(es, l));
        assert(incoming(h, c) == sources(es, l));
        if c == b {
            assert(sources(es2, seq![e] + l) =~= seq![(a, w)] + sources(es2, l));
        }
    }
}

/// Right after an edge `(a, b, w)` is added, it is the first edge of `a`'s
/// outgoing list that ends at `b`, and removing it gives back the graph as
/// it was.
pub proof fn lemma_link_undo(n: nat, es: Seq<(usize, usize, u8)>, outs: Seq<Seq<usize>>, ins: Seq<Seq<usize>>,
    a: usize, b: usize, w: u8)
    requires
        graph_ok(n, es, outs, ins),
        a < n,
        b < n,
        es.len() < index_end(),
    ensures ({
        let e = es.len() as usize;
        let es2 = es.push((a, b, w));
        let outs2 = outs.update(a as int, seq![e] + outs[a as int]);
        let ins2 = ins.update(b as int, seq![e] + ins[b as int]);
        &&& first_to(es2, outs2[a as int], b) == Some(e)
        &&& es2.update(e as int, es2.last()).drop_last() == es
        &&& forall|x: int| 0 <= x < outs.len() ==> rename_edge(without_edge(#[trigger] outs2[x], e), e, e) == outs[x]
        &&& forall|x: int| 0 <= x < ins.len() ==> rename_edge(without_edge(#[trigger] ins2[x], e), e, e) == ins[x]
    }),
{
    let e = es.len() as usize;
    let es2 = es.push((a, b, w));
    let outs2 = outs.update(a as int, seq![e] + outs[a as int]);
    let ins2 = ins.update(b as int, seq![e] + ins[b as int]);
    assert(es2.update(e as int, es2.last()).drop_last() =~= es);
    assert((seq![e] + outs[a as int])[0] == e);
    assert forall|x: int| 0 <= x < outs.len() implies rename_edge(without_edge(#[trigger] outs2[x], e), e, e) == outs[x] by {
        let l = outs[x];
        assert(!l.contains(e));
        lemma_without_absent(l, e);
        if x == a {
            l.lemma_filter_prepend(e, other_than(e));
            assert(without_edge(outs2[x], e) =~= l);
        }
        assert(rename_edge(without_edge(outs2[x], e), e, e) =~= l);
    }
    assert forall|x: int| 0 <= x < ins.len() implies rename_edge(without_edge(#[trigger] ins2[x], e), e, e) == ins[x] by {
        let l = ins[x];
        assert(!l.contains(e));
        lemma_without_absent(l, e);
        if x == b {
            l.lemma_filter_prepend(e, other_than(e));
            assert(without_edge(ins2[x], e) =~= l);
        }
        assert(rename_edge(without_edge(ins2[x], e), e, e) =~= l);
    }
}

/// The edges left when node `a` goes touch neither `a` nor a missing node.
pub proof fn lemma_detach_bounds(h: Seq<(usize, usize, u8)>, a: usize, n: nat)
    requires
        forall|k: int| 0 <= k < h.len() ==> (#[trigger] h[k]).0 < n && h[k].1 < n,
    ensures
        forall|k: int| 0 <= k < detach(h, a).len() ==> (#[trigger] detach(h, a)[k]).0 < n && detach(h, a)[k].1 < n
            && detach(h, a)[k].0 != a && detach(h, a)[k].1 != a,
    decreases h.len(),
{
    if h.len() > 0 {
        let d = h.drop_last();
        assert forall|k: int| 0 <= k < d.len() implies (#[trigger] d[k]).0 < n && d[k].1 < n by {
            assert(d[k] == h[k]);
        }
        lemma_detach_bounds(d, a, n);
        let r = h.last();
        assert(h[h.len() - 1] == r);
        let dd = detach(d, a);
        if !(r.0 == a || r.1 == a) {
            assert forall|k: int| 0 <= k < detach(h, a).len() implies (#[trigger] detach(h, a)[k]).0 < n && detach(h, a)[k].1 < n
                && detach(h, a)[k].0 != a && detach(h, a)[k].1 != a by {
                if k < dd.len() {
                    assert(detach(h, a)[k] == dd[k]);
                } else {
                    assert(detach(h, a)[k] == r);
                }
            }
        }
    }
}

/// So many edges stay when node `a` goes as are not at `a`, a loop at `a`
/// counted once.
pub proof fn lemma_detach_len(h: Seq<(usize, usize, u8)>, a: usize)
    ensures
        detach(h, a).len() + outgoing(h, a).len() + incoming(h, a).len() == h.len() + count_of(outgoing(h, a), a),
    decreases h.len(),
{
    reveal(Seq::filter);
    if h.len() > 0 {
        let d = h.drop_last();
        let r = h.last();
        lemma_detach_len(d, a);
        if r.0 == a {
            outgoing(d, a).lemma_filter_prepend(r.1, equal_to(a));
        }
    }
}

/// Removing node `a`, the last node `last` taking its index: a node's
/// successors are those it had, less `a`, with `last` renamed.
pub proof fn lemma_detach_outgoing(h: Seq<(usize, usize, u8)>, a: usize, last: usize, x: usize)
    requires
        forall|k: int| 0 <= k < h.len() ==> (#[trigger] h[k]).0 <= last && h[k].1 <= last,
        a <= last,
        x < last,
    ensures
        outgoing(move_node(detach(h, a), last, a), x) == drop_move(outgoing(h, if x == a { last } else { x }), a, last, a),
    decreases h.len(),
{
    reveal(Seq::filter);
    let p = if x == a { last } else { x };
    if h.len() == 0 {
        assert(move_node(detach(h, a), last, a) =~= Seq::<(usize, usize, u8)>::empty());
        assert(drop_move(outgoing(h, p), a, last, a) =~= Seq::<usize>::empty());
    } else {
        let d = h.drop_last();
        let r = h.last();
        assert forall|k: int| 0 <= k < d.len() implies (#[trigger] d[k]).0 <= last && d[k].1 <= last by {
            assert(d[k] == h[k]);
        }
        assert(h[h.len() - 1] == r);
        lemma_detach_outgoing(d, a, last, x);
        let m = move_node(detach(d, a), last, a);
        let l = outgoing(d, p);
        if r.0 == a || r.1 == a {
            if r.0 == p {
                l.lemma_filter_prepend(r.1, other_than(a));
                assert(drop_move(seq![r.1] + l, a, last, a) =~= drop_move(l, a, last, a));
            }
        } else {
            let mr = (if r.0 == last { a } else { r.0 }, if r.1 == last { a } else { r.1 }, r.2);
            assert(move_node(detach(h, a), last, a) =~= m.push(mr));
            lemma_edges_push(m, mr, x);
            if r.0 == p {
                l.lemma_filter_prepend(r.1, other_than(a));
                assert(drop_move(seq![r.1] + l, a, last, a) =~= seq![mr.1] + drop_move(l, a, last, a));
            }
        }
    }
}

/// Removing node `a`, the last node `last` taking its index: a node's
/// predecessors are those it had, less `a`, with `last` renamed.
pub proof fn lemma_detach_incoming(h: Seq<(usize, usize, u8)>, a: usize, last: usize, x: usize)
    requires
        forall|k: int| 0 <= k < h.len() ==> (#[trigger] h[k]).0 <= last && h[k].1 <= last,
        a <= last,
        x < last,
    ensures
        incoming(move_node(detach(h, a), last, a), x) == drop_move_pairs(incoming(h, if x == a { last } else { x }), a, last, a),
    decreases h.len(),
{
    reveal(Seq::filter);
    let p = if x == a { last } else { x };
    if h.len() == 0 {
        assert(move_node(detach(h, a), last, a) =~= Seq::<(usize, usize, u8)>::empty());
        assert(drop_move_pairs(incoming(h, p), a, last, a) =~= Seq::<(usize, u8)>::empty());
    } else {
        let d = h.drop_last();
        let r = h.last();
        assert forall|k: int| 0 <= k < d.len() implies (#[trigger] d[k]).0 <= last && d[k].1 <= last by {
            assert(d[k] == h[k]);
        }
        assert(h[h.len() - 1] == r);
        lemma_detach_incoming(d, a, last, x);
        let m = move_node(detach(d, a), last, a);
        let l = incoming(d, p);
        if r.0 == a || r.1 == a {
            if r.1 == p {
                l.lemma_filter_prepend((r.0, r.2), pair_other_than(a));
                assert(drop_move_pairs(seq![(r.0, r.2)] + l, a, last, a) =~= drop_move_pairs(l, a, last, a));
            }
        } else {
            let mr = (if r.0 == last { a } else { r.0 }, if r.1 == last { a } else { r.1 }, r.2);
            assert(move_node(detach(h, a), last, a) =~= m.push(mr));
            lemma_edges_push(m, mr, x);
            if r.1 == p {
                l.lemma_filter_prepend((r.0, r.2), pair_other_than(a));
                assert(drop_move_pairs(seq![(r.0, r.2)] + l, a, last, a) =~= seq![(mr.0, mr.2)] + drop_move_pairs(l, a, last, a));
            }
        }
    }
}

/// Each successor in a node's list comes from an edge out of it.
pub proof fn lemma_outgoing_from(h: Seq<(usize, usize, u8)>, c: usize, i: int)
    requires
        0 <= i < outgoing(h, c).len(),
    ensures
        exists|j: int| 0 <= j < h.len() && (#[trigger] h[j]).0 == c && h[j].1 == outgoing(h, c)[i],
    decreases h.len(),
{
    let d = h.drop_last();
    if h.last().0 == c && i == 0 {
        assert(h[h.len() - 1].1 == outgoing(h, c)[i]);
    } else {
        let i2 = if h.last().0 == c { i - 1 } else { i };
        lemma_outgoing_from(d, c, i2);
        let j = choose|j: int| 0 <= j < d.len() && (#[trigger] d[j]).0 == c && d[j].1 == outgoing(d, c)[i2];
        assert(h[j] == d[j]);
    }
}

/// Each edge out of a node gives a successor in its list.
pub proof fn lemma_outgoing_has(h: Seq<(usize, usize, u8)>, j: int)
    requires
        0 <= j < h.len(),
    ensures
        exists|i: int| 0 <= i < outgoing(h, h[j].0).len() && #[trigger] outgoing(h, h[j].0)[i] == h[j].1,
    decreases h.len(),
{
    let d = h.drop_last();
    let c = h[j].0;
    if j == h.len() - 1 {
        assert(outgoing(h, c)[0] == h[j].1);
    } else {
        assert(d[j] == h[j]);
        lemma_outgoing_has(d, j);
        let i = choose|i: int| 0 <= i < outgoing(d, c).len() && #[trigger] outgoing(d, c)[i] == d[j].1;
        if h.last().0 == c {
            assert(outgoing(h, c)[i + 1] == h[j].1);
        } else {
            assert(outgoing(h, c)[i] == h[j].1);
        }
    }
}

/// The edges of a graph whose lists hold the edges `h` join the same
/// nodes as `h`.
pub proof fn lemma_linked_same(n: nat, es: Seq<(usize, usize, u8)>, outs: Seq<Seq<usize>>, ins: Seq<Seq<usize>>, h: Seq<(usize, usize, u8)>)
    requires
        graph_ok(n, es, outs, ins),
        linked(n, es, outs, ins, h),
    ensures
        same_links(es, h),
{
    assert forall|k: int| 0 <= k < es.len() implies has_link(h, (#[trigger] es[k]).0, es[k].1) by {
        let c = es[k].0;
        let l = outs[c as int];
        assert(l.contains(k as usize));
        let i = choose|i: int| 0 <= i < l.len() && l[i] == k as usize;
        assert(outgoing(h, c) == targets(es, l));
        assert(targets(es, l)[i] == es[k].1);
        lemma_outgoing_from(h, c, i);
    }
    assert forall|j: int| 0 <= j < h.len() implies has_link(es, (#[trigger] h[j]).0, h[j].1) by {
        let c = h[j].0;
        lemma_outgoing_has(h, j);
        let i = choose|i: int| 0 <= i < outgoing(h, c).len() && #[trigger] outgoing(h, c)[i] == h[j].1;
        let l = outs[c as int];
        assert(outgoing(h, c) == targets(es, l));
        let k = l[i];
        assert(l.contains(k));
        assert(es[k as int].0 == c && es[k as int].1 == h[j].1);
    }
}

/// An order of the nodes puts every edge forward for one list of edges
/// exactly when it does for another that joins the same nodes.
pub proof fn lemma_topo_same(n: nat, es: Seq<(usize, usize, u8)>, fs: Seq<(usize, usize, u8)>, v: Seq<usize>)
    requires
        same_links(es, fs),
    ensures
        is_topo_order(n, es, v) <==> is_topo_order(n, fs, v),
        acyclic(n, es) <==> acyclic(n, fs),
{
    assert forall|v: Seq<usize>| is_topo_order(n, es, v) implies #[trigger] is_topo_order(n, fs, v) by {
        assert forall|k: int, i: int, j: int|
            #![trigger fs[k], v[i], v[j]]
            0 <= k < fs.len() && 0 <= i < v.len() && 0 <= j < v.len() && v[i] == fs[k].0 && v[j] == fs[k].1 implies i < j by {
            assert(has_link(es, fs[k].0, fs[k].1));
            let kk = choose|kk: int| 0 <= kk < es.len() && (#[trigger] es[kk]).0 == fs[k].0 && es[kk].1 == fs[k].1;
            assert(es[kk].0 == fs[k].0);
        }
    }
    assert forall|v: Seq<usize>| is_topo_order(n, fs, v) implies #[trigger] is_topo_order(n, es, v) by {
        assert forall|k: int, i: int, j: int|
            #![trigger es[k], v[i], v[j]]
            0 <= k < es.len() && 0 <= i < v.len() && 0 <= j < v.len() && v[i] == es[k].0 && v[j] == es[k].1 implies i < j by {
            assert(has_link(fs, es[k].0, es[k].1));
            let kk = choose|kk: int| 0 <= kk < fs.len() && (#[trigger] fs[kk]).0 == es[k].0 && fs[kk].1 == es[k].1;
            assert(fs[kk].0 == es[k].0);
        }
    }
    if acyclic(n, es) {
        let w = choose|w: Seq<usize>| is_topo_order(n, es, w);
        assert(is_topo_order(n, fs, w));
    }
    if acyclic(n, fs) {
        let w = choose|w: Seq<usize>| is_topo_order(n, fs, w);
        assert(is_topo_order(n, es, w));
    }
}

/// A node that no edge touches has no successor and no predecessor.
pub proof fn lemma_untouched(h: Seq<(usize, usize, u8)>, c: usize)
    requires
        forall|k: int| 0 <= k < h.len() ==> (#[trigger] h[k]).0 != c && h[k].1 != c,
    ensures
        outgoing(h, c) == Seq::<usize>::empty(),
        incoming(h, c) == Seq::<(usize, u8)>::empty(),
    decreases h.len(),
{
    if h.len() > 0 {
        let d = h.drop_last();
        assert forall|k: int| 0 <= k < d.len() implies (#[trigger] d[k]).0 != c && d[k].1 != c by {
            assert(d[k] == h[k]);
        }
        assert(h[h.len() - 1] == h.last());
        lemma_untouched(d, c);
    }
}

/// A new node, with empty lists, keeps the lists holding the same edges.
pub proof fn lemma_link_add_node(n: nat, es: Seq<(usize, usize, u8)>, outs: Seq<Seq<usize>>, ins: Seq<Seq<usize>>, h: Seq<(usize, usize, u8)>)
    requires
        graph_ok(n, es, outs, ins),
        linked(n, es, outs, ins, h),
    ensures
        linked(n + 1, es, outs.push(Seq::<usize>::empty()), ins.push(Seq::<usize>::empty()), h),
{
    let outs2 = outs.push(Seq::<usize>::empty());
    let ins2 = ins.push(Seq::<usize>::empty());
    assert forall|c: usize| c < n + 1 implies #[trigger] outgoing(h, c) == targets(es, outs2[c as int]) by {
        if c < n {
            assert(outs2[c as int] == outs[c as int]);
        } else {
            lemma_untouched(h, c);
            assert(targets(es, outs2[c as int]) =~= Seq::<usize>::empty());
        }
    }
    assert forall|c: usize| c < n + 1 implies #[trigger] incoming(h, c) == sources(es, ins2[c as int]) by {
        if c < n {
            assert(ins2[c as int] == ins[c as int]);
        } else {
            lemma_untouched(h, c);
            assert(sources(es, ins2[c as int]) =~= Seq::<(usize, u8)>::empty());
        }
    }
}

/// Removing node `a` as `Graph::remove_node` does leaves lists that hold
/// the edges not at `a`, the last node renamed `a`.
pub proof fn lemma_link_remove_node(n: nat, es: Seq<(usize, usize, u8)>, outs: Seq<Seq<usize>>, ins: Seq<Seq<usize>>,
    h: Seq<(usize, usize, u8)>, a: usize, es2: Seq<(usize, usize, u8)>, outs2: Seq<Seq<usize>>, ins2: Seq<Seq<usize>>)
    requires
        graph_ok(n, es, outs, ins),
        linked(n, es, outs, ins, h),
        a < n,
        n <= index_end(),
        es2.len() + outs[a as int].len() + ins[a as int].len() == es.len() + count_of(targets(es, outs[a as int]), a),
        forall|x: int| 0 <= x < n - 1 ==> #[trigger] targets(es2, outs2[x])
            == drop_move(targets(es, outs[if x == a { n - 1 } else { x }]), a, (n - 1) as usize, a),
        forall|x: int| 0 <= x < n - 1 ==> #[trigger] sources(es2, ins2[x])
            == drop_move_pairs(sources(es, ins[if x == a { n - 1 } else { x }]), a, (n - 1) as usize, a),
    ensures
        linked((n - 1) as nat, es2, outs2, ins2, move_node(detach(h, a), (n - 1) as usize, a)),
{
    let last = (n - 1) as usize;
    let d = detach(h, a);
    let h2 = move_node(d, last, a);
    lemma_detach_len(h, a);
    assert(outgoing(h, a) == targets(es, outs[a as int]));
    assert(incoming(h, a) == sources(es, ins[a as int]));
    lemma_detach_bounds(h, a, n);
    assert forall|k: int| 0 <= k < h2.len() implies (#[trigger] h2[k]).0 < last && h2[k].1 < last by {
        assert(d[k].0 < n && d[k].1 < n && d[k].0 != a && d[k].1 != a);
    }
    assert forall|k: int| 0 <= k < h.len() implies (#[trigger] h[k]).0 <= last && h[k].1 <= last by {
        assert(h[k].0 < n);
    }
    assert forall|x: usize| x < last implies #[trigger] outgoing(h2, x) == targets(es2, outs2[x as int]) by {
        lemma_detach_outgoing(h, a, last, x);
        let p: usize = if x == a { last } else { x };
        assert(outgoing(h, p) == targets(es, outs[p as int]));
        assert(targets(es2, outs2[x as int]) == drop_move(targets(es, outs[p as int]), a, last, a));
    }
    assert forall|x: usize| x < last implies #[trigger] incoming(h2, x) == sources(es2, ins2[x as int]) by {
        lemma_detach_incoming(h, a, last, x);
        let p: usize = if x == a { last } else { x };
        assert(incoming(h, p) == sources(es, ins[p as int]));
        assert(sources(es2, ins2[x as int]) == drop_move_pairs(sources(es, ins[p as int]), a, last, a));
    }
}

/// The successor and predecessor lists of a graph whose lists hold the
/// edges `h` are those of `h`.
pub proof fn lemma_linked_lists(n: nat, es: Seq<(usize, usize, u8)>, outs: Seq<Seq<usize>>, ins: Seq<Seq<usize>>, h: Seq<(usize, usize, u8)>)
    requires
        linked(n, es, outs, ins, h),
        n < index_end(),
    ensures
        succ_lists(n, es, outs) == succs_of(n, h),
        pred_lists(n, es, ins) == preds_of(n, h),
{
    assert forall|b: int| 0 <= b < n implies #[trigger] succ_lists(n, es, outs)[b] == succs_of(n, h)[b] by {
        let c = b as usize;
        assert(outgoing(h, c) == targets(es, outs[c as int]));
    }
    assert(succ_lists(n, es, outs) =~= succs_of(n, h));
    assert forall|b: int| 0 <= b < n implies #[trigger] pred_lists(n, es, ins)[b] == preds_of(n, h)[b] by {
        let c = b as usize;
        assert(incoming(h, c) == sources(es, ins[c as int]));
        assert(pred_lists(n, es, ins)[b] =~= preds_of(n, h)[b]);
    }
    assert(pred_lists(n, es, ins) =~= preds_of(n, h));
}

/// `Graph::new`: a directed graph with no node and no edge.
#[verifier::external_body]
pub(crate) fn graph_new() -> (g: petgraph::graph::Graph<u128, u8>)
    ensures
        graph_nodes(g) == Seq::<u128>::empty(),
        graph_edges(g) == Seq::<(usize, usize, u8)>::empty(),
        graph_outs(g) == Seq::<Seq<usize>>::empty(),
        graph_ins(g) == Seq::<Seq<usize>>::empty(),
        graph_ok(0, graph_edges(g), graph_outs(g), graph_ins(g)),
{
    petgraph::graph::Graph::new()
}

/// `Graph::node_count`: the number of nodes.
#[verifier::external_body]
pub(crate) fn graph_node_count(g: &petgraph::graph::Graph<u128, u8>) -> (n: usize)
    ensures
        n == graph_nodes(*g).len(),
{
    g.node_count()
}

/// `Graph::add_node`: the weight becomes the last node, with empty edge
/// lists, and its index is returned; the edges stay. It panics at the
/// largest `u32` index, which `requires` leaves out.
#[verifier::external_body]
pub(crate) fn graph_add_node(g: &mut petgraph::graph::Graph<u128, u8>, w: u128) -> (i: usize)
    requires
        graph_nodes(*old(g)).len() < index_end(),
    ensures
        i == graph_nodes(*old(g)).len(),
        graph_nodes(*final(g)) == graph_nodes(*old(g)).push(w),
        graph_edges(*final(g)) == graph_edges(*old(g)),
        graph_outs(*final(g)) == graph_outs(*old(g)).push(Seq::<usize>::empty()),
        graph_ins(*final(g)) == graph_ins(*old(g)).push(Seq::<usize>::empty()),
        graph_ok(graph_nodes(*final(g)).len(), graph_edges(*final(g)), graph_outs(*final(g)), graph_ins(*final(g))),
{
    g.add_node(w).index()
}

/// `Graph::node_weight`: the weight of node `a`, if there is one.
#[verifier::external_body]
pub(crate) fn graph_node_weight(g: &petgraph::graph::Graph<u128, u8>, a: usize) -> (r: Option<u128>)
    requires
        a < index_end(),
    ensures
        r == if a < graph_nodes(*g).len() { Some(graph_nodes(*g)[a as int]) } else { None },
{
    g.node_weight(petgraph::graph::NodeIndex::new(a)).copied()
}

/// `Graph::add_edge`: an edge from `a` to `b` pushed as the last edge, with
/// the next edge index, which is returned, and linked at the head of `a`'s
/// outgoing list and of `b`'s incoming list; the nodes stay. It panics when
/// a node is missing or at the largest `u32` index, which `requires` leaves
/// out.
#[verifier::external_body]
pub(crate) fn graph_add_edge(g: &mut petgraph::graph::Graph<u128, u8>, a: usize, b: usize, w: u8) -> (e: usize)
    requires
        a < graph_nodes(*old(g)).len(),
        b < graph_nodes(*old(g)).len(),
        graph_nodes(*old(g)).len() < index_end(),
        graph_edges(*old(g)).len() < index_end(),
    ensures
        e == graph_edges(*old(g)).len(),
        graph_nodes(*final(g)) == graph_nodes(*old(g)),
        graph_edges(*final(g)) == graph_edges(*old(g)).push((a, b, w)),
        graph_outs(*final(g)) == graph_outs(*old(g)).update(a as int, seq![e] + graph_outs(*old(g))[a as int]),
        graph_ins(*final(g)) == graph_ins(*old(g)).update(b as int, seq![e] + graph_ins(*old(g))[b as int]),
        graph_ok(graph_nodes(*final(g)).len(), graph_edges(*final(g)), graph_outs(*final(g)), graph_ins(*final(g))),
{
    g.add_edge(petgraph::graph::NodeIndex::new(a), petgraph::graph::NodeIndex::new(b), w).index()
}

/// `Graph::find_edge`: the first edge of `a`'s outgoing list that ends at
/// `b`, if there is one.
#[verifier::external_body]
pub(crate) fn graph_find_edge(g: &petgraph::graph::Graph<u128, u8>, a: usize, b: usize) -> (r: Option<usize>)
    requires
        a < index_end(),
        b < index_end(),
        graph_ok(graph_nodes(*g).len(), graph_edges(*g), graph_outs(*g), graph_ins(*g)),
    ensures
        r == if a < graph_nodes(*g).len() { first_to(graph_edges(*g), graph_outs(*g)[a as int], b) } else { None },
{
    g.find_edge(petgraph::graph::NodeIndex::new(a), petgraph::graph::NodeIndex::new(b)).map(|e| e.index())
}

/// `Graph::remove_edge`: the edge of index `e` unlinked from its two lists
/// and its weight returned; the last edge is swapped into index `e`, and its
/// links are renamed to `e`. No edge of that index: nothing changes.
#[verifier::external_body]
pub(crate) fn graph_remove_edge(g: &mut petgraph::graph::Graph<u128, u8>, e: usize) -> (r: Option<u8>)
    requires
        e < index_end(),
        graph_ok(graph_nodes(*old(g)).len(), graph_edges(*old(g)), graph_outs(*old(g)), graph_ins(*old(g))),
    ensures
        graph_nodes(*final(g)) == graph_nodes(*old(g)),
        graph_ok(graph_nodes(*final(g)).len(), graph_edges(*final(g)), graph_outs(*final(g)), graph_ins(*final(g))),
        e >= graph_edges(*old(g)).len() ==> r is None && graph_edges(*final(g)) == graph_edges(*old(g))
            && graph_outs(*final(g)) == graph_outs(*old(g)) && graph_ins(*final(g)) == graph_ins(*old(g)),
        e < graph_edges(*old(g)).len() ==> {
            let es = graph_edges(*old(g));
            let last = (es.len() - 1) as usize;
            &&& r == Some(es[e as int].2)
            &&& graph_edges(*final(g)) == es.update(e as int, es.last()).drop_last()
            &&& graph_outs(*final(g)).len() == graph_outs(*old(g)).len()
            &&& graph_ins(*final(g)).len() == graph_ins(*old(g)).len()
            &&& forall|x: int| 0 <= x < graph_outs(*old(g)).len() ==> #[trigger] graph_outs(*final(g))[x]
                == rename_edge(without_edge(graph_outs(*old(g))[x], e), last, e)
            &&& forall|x: int| 0 <= x < graph_ins(*old(g)).len() ==> #[trigger] graph_ins(*final(g))[x]
                == rename_edge(without_edge(graph_ins(*old(g))[x], e), last, e)
        },
{
    g.remove_edge(petgraph::graph::EdgeIndex::new(e))
}

/// `Graph::remove_node`: node `a` taken out with every edge at it, and its
/// weight returned; the last node takes over index `a`. Each remaining
/// node keeps its lists in order, less the edges at `a`, with the moved node
/// renamed; so many edges go as `a`'s lists hold (a loop counted once). Which
/// index each remaining edge ends with (the swaps of the removed edges decide
/// it) is not stated. No node `a`: nothing changes.
#[verifier::external_body]
pub(crate) fn graph_remove_node(g: &mut petgraph::graph::Graph<u128, u8>, a: usize) -> (r: Option<u128>)
    requires
        a < index_end(),
        graph_ok(graph_nodes(*old(g)).len(), graph_edges(*old(g)), graph_outs(*old(g)), graph_ins(*old(g))),
    ensures
        a >= graph_nodes(*old(g)).len() ==> r is None && graph_nodes(*final(g)) == graph_nodes(*old(g))
            && graph_edges(*final(g)) == graph_edges(*old(g)) && graph_outs(*final(g)) == graph_outs(*old(g))
            && graph_ins(*final(g)) == graph_ins(*old(g)),
        a < graph_nodes(*old(g)).len() ==> {
            let n = graph_nodes(*old(g));
            let es = graph_edges(*old(g));
            let outs = graph_outs(*old(g));
            let ins = graph_ins(*old(g));
            let last = (n.len() - 1) as usize;
            &&& r == Some(n[a as int])
            &&& graph_nodes(*final(g)) == n.update(a as int, n.last()).drop_last()
            &&& graph_ok(last as nat, graph_edges(*final(g)), graph_outs(*final(g)), graph_ins(*final(g)))
            &&& graph_edges(*final(g)).len() + outs[a as int].len() + ins[a as int].len()
                == es.len() + count_of(targets(es, outs[a as int]), a)
            &&& forall|x: int| 0 <= x < last ==> #[trigger] targets(graph_edges(*final(g)), graph_outs(*final(g))[x])
                == drop_move(targets(es, outs[if x == a { last as int } else { x }]), a, last, a)
            &&& forall|x: int| 0 <= x < last ==> #[trigger] sources(graph_edges(*final(g)), graph_ins(*final(g))[x])
                == drop_move_pairs(sources(es, ins[if x == a { last as int } else { x }]), a, last, a)
        },
{
    g.remove_node(petgraph::graph::NodeIndex::new(a))
}

/// `Graph::edges_directed` with `Incoming`: the edges of node `a`'s
/// incoming list, in order, as source index and weight.
#[verifier::external_body]
pub(crate) fn graph_incoming(g: &petgraph::graph::Graph<u128, u8>, a: usize) -> (r: Vec<(usize, u8)>)
    requires
        a < index_end(),
        graph_ok(graph_nodes(*g).len(), graph_edges(*g), graph_outs(*g), graph_ins(*g)),
    ensures
        r@ == if a < graph_nodes(*g).len() { sources(graph_edges(*g), graph_ins(*g)[a as int]) } else { Seq::<(usize, u8)>::empty() },
{
    g.edges_directed(petgraph::graph::NodeIndex::new(a), petgraph::Direction::Incoming)
        .map(|e| (petgraph::visit::EdgeRef::source(&e).index(), *e.weight()))
        .collect()
}

/// `Graph::edges_directed` with `Outgoing`: the edges of node `a`'s
/// outgoing list, in order, as target index.
#[verifier::external_body]
pub(crate) fn graph_outgoing(g: &petgraph::graph::Graph<u128, u8>, a: usize) -> (r: Vec<usize>)
    requires
        a < index_end(),
        graph_ok(graph_nodes(*g).len(), graph_edges(*g), graph_outs(*g), graph_ins(*g)),
    ensures
        r@ == if a < graph_nodes(*g).len() { targets(graph_edges(*g), graph_outs(*g)[a as int]) } else { Seq::<usize>::empty() },
{
    g.edges_directed(petgraph::graph::NodeIndex::new(a), petgraph::Direction::Outgoing)
        .map(|e| petgraph::visit::EdgeRef::target(&e).index())
        .collect()
}

/// `petgraph::algo::toposort`: for a graph without a cycle, every node once,
/// each before its successors; otherwise a node the search found on a cycle
/// (a self loop is one). Which order, and which node, is named, not stated:
/// the search walks the nodes by index and each node's lists in order.
#[verifier::external_body]
pub(crate) fn graph_toposort(g: &petgraph::graph::Graph<u128, u8>) -> (r: Result<Vec<usize>, usize>)
    requires
        graph_ok(graph_nodes(*g).len(), graph_edges(*g), graph_outs(*g), graph_ins(*g)),
    ensures
        match (r, toposorted(graph_nodes(*g).len(), succ_lists(graph_nodes(*g).len(), graph_edges(*g), graph_outs(*g)),
            pred_lists(graph_nodes(*g).len(), graph_edges(*g), graph_ins(*g)))) {
            (Ok(v), Ok(w)) => v@ == w,
            (Err(x), Err(y)) => x == y,
            _ => false,
        },
        r is Ok <==> acyclic(graph_nodes(*g).len(), graph_edges(*g)),
        r matches Ok(v) ==> is_topo_order(graph_nodes(*g).len(), graph_edges(*g), v@),
        r matches Err(x) ==> x < graph_nodes(*g).len(),
{
    match petgraph::algo::toposort(g, None) {
        Ok(v) => Ok(v.into_iter().map(|i| i.index()).collect()),
        Err(c) => Err(c.node_id().index()),
    }
}

} // verus!
