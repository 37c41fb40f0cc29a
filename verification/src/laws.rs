use vstd::prelude::*;

use crate::errors::Error;
use crate::groups::group_get;
use crate::parse::parse_spec;
use crate::propagate::{
    affected_spec, bfs, deps_of, expected_group, propagated, scan_deps, set_value, sink_batch,
};
use crate::tree::{ann_paths, find_path_from, node_annotated, nodes_wf, Node, NodeModel};
use crate::tree::Tree;
use crate::value::Value;

verus! {

/// `find_sources` / `find_sinks` answer exactly the annotated paths: a path
/// stands in the answer for `name` if and only if some node carries that
/// path together with that annotation. The order of the answer is fixed by
/// `ann_paths` itself: store order, which is tree traversal order.
pub proof fn lemma_ann_paths_membership(
    nodes: Seq<Node>,
    name: Seq<char>,
    sink: bool,
    p: Seq<char>,
)
    ensures
        ann_paths(nodes, name, sink).contains(p) <==> exists|i: int|
            0 <= i < nodes.len() && node_annotated(#[trigger] nodes[i], name, sink)
                && nodes[i].path@ == p,
    decreases nodes.len(),
{
    if nodes.len() == 0 {
    } else {
        let pre = nodes.drop_last();
        lemma_ann_paths_membership(pre, name, sink, p);
        let tail: Seq<Seq<char>> = if node_annotated(nodes.last(), name, sink) {
            seq![nodes.last().path@]
        } else {
            Seq::empty()
        };
        let whole = ann_paths(nodes, name, sink);
        assert(whole == ann_paths(pre, name, sink) + tail);
        if whole.contains(p) {
            let k = choose|k: int| 0 <= k < whole.len() && whole[k] == p;
            if k < ann_paths(pre, name, sink).len() {
                assert(ann_paths(pre, name, sink)[k] == p);
                assert(ann_paths(pre, name, sink).contains(p));
                let i = choose|i: int|
                    0 <= i < pre.len() && node_annotated(#[trigger] pre[i], name, sink)
                        && pre[i].path@ == p;
                assert(nodes[i] == pre[i]);
                assert(node_annotated(nodes[i], name, sink) && nodes[i].path@ == p);
            } else {
                assert(tail[k - ann_paths(pre, name, sink).len()] == p);
                assert(node_annotated(nodes[nodes.len() - 1], name, sink) && nodes[nodes.len()
                    - 1].path@ == p);
            }
        }
        if exists|i: int|
            0 <= i < nodes.len() && node_annotated(#[trigger] nodes[i], name, sink)
                && nodes[i].path@ == p {
            let i = choose|i: int|
                0 <= i < nodes.len() && node_annotated(#[trigger] nodes[i], name, sink)
                    && nodes[i].path@ == p;
            if i < nodes.len() - 1 {
                assert(pre[i] == nodes[i]);
                assert(node_annotated(pre[i], name, sink) && pre[i].path@ == p);
                assert(ann_paths(pre, name, sink).contains(p));
                let k = choose|k: int|
                    0 <= k < ann_paths(pre, name, sink).len() && ann_paths(pre, name, sink)[k] == p;
                assert(whole[k] == p);
                assert(whole.contains(p));
            } else {
                assert(whole[ann_paths(pre, name, sink).len() as int] == p);
                assert(whole.contains(p));
            }
        }
    }
}

/// The affected list only ever grows across one discovery sweep.
pub proof fn lemma_scan_keeps(deps: Seq<Seq<usize>>, aff: Seq<usize>, cur: usize, j: int, x: usize)
    requires
        aff.contains(x),
    ensures
        scan_deps(deps, aff, cur, j).contains(x),
    decreases deps.len() - j,
{
    broadcast use vstd::seq_lib::lemma_seq_contains_after_push;

    if j < 0 || j >= deps.len() {
    } else {
        let aff2 = if deps[j].contains(cur) && !aff.contains(j as usize) {
            aff.push(j as usize)
        } else {
            aff
        };
        assert(aff2.contains(x));
        lemma_scan_keeps(deps, aff2, cur, j + 1, x);
    }
}

/// A sweep for `cur` discovers every node that pulls from `cur`.
pub proof fn lemma_scan_complete(
    deps: Seq<Seq<usize>>,
    aff: Seq<usize>,
    cur: usize,
    j: int,
    j0: int,
)
    requires
        deps.len() <= usize::MAX,
        0 <= j <= j0 < deps.len(),
        deps[j0].contains(cur),
    ensures
        scan_deps(deps, aff, cur, j).contains(j0 as usize),
    decreases deps.len() - j,
{
    broadcast use vstd::seq_lib::lemma_seq_contains_after_push;

    let aff2 = if deps[j].contains(cur) && !aff.contains(j as usize) {
        aff.push(j as usize)
    } else {
        aff
    };
    if j == j0 {
        assert(aff2.contains(j0 as usize));
        lemma_scan_keeps(deps, aff2, cur, j + 1, j0 as usize);
    } else {
        lemma_scan_complete(deps, aff2, cur, j + 1, j0);
    }
}

/// Once discovered, a node stays in the affected list to the end.
pub proof fn lemma_bfs_keeps(deps: Seq<Seq<usize>>, aff: Seq<usize>, qi: int, fuel: nat, x: usize)
    requires
        aff.contains(x),
    ensures
        bfs(deps, aff, qi, fuel).contains(x),
    decreases fuel,
{
    if fuel == 0 || qi < 0 || qi >= aff.len() {
    } else {
        let aff2 = scan_deps(deps, aff, aff[qi], 0);
        lemma_scan_keeps(deps, aff, aff[qi], 0, x);
        lemma_bfs_keeps(deps, aff2, qi + 1, (fuel - 1) as nat, x);
    }
}

/// The event's target node, and every direct dependent of it, is affected.
pub proof fn lemma_affected_direct(deps: Seq<Seq<usize>>, t: usize, j: int)
    requires
        deps.len() <= usize::MAX,
        (t as int) < deps.len(),
        0 <= j < deps.len(),
        deps[j].contains(t),
    ensures
        affected_spec(deps, t).contains(t),
        affected_spec(deps, t).contains(j as usize),
{
    let start: Seq<usize> = seq![t];
    let n = deps.len() as nat;
    assert(start[0] == t);
    assert(start.contains(t));
    assert(bfs(deps, start, 0, n) == bfs(
        deps,
        scan_deps(deps, start, t, 0),
        1,
        (n - 1) as nat,
    ));
    lemma_scan_keeps(deps, start, t, 0, t);
    lemma_scan_complete(deps, start, t, 0, j);
    lemma_bfs_keeps(deps, scan_deps(deps, start, t, 0), 1, (n - 1) as nat, t);
    lemma_bfs_keeps(deps, scan_deps(deps, start, t, 0), 1, (n - 1) as nat, j as usize);
}

/// An affected node with the queried sink annotation contributes its pair
/// to the batch.
pub proof fn lemma_sink_batch_has(
    nodes: Seq<Node>,
    aff: Seq<usize>,
    v: Value,
    name: Seq<char>,
    b: int,
)
    requires
        nodes.len() <= usize::MAX,
        0 <= b < nodes.len(),
        aff.contains(b as usize),
        node_annotated(nodes[b], name, true),
    ensures
        sink_batch(nodes, aff, v, name).contains((nodes[b].path@, v)),
    decreases aff.len(),
{
    let kidx = choose|k: int| 0 <= k < aff.len() && aff[k] == b as usize;
    assert(0 <= kidx < aff.len());
    let pre = aff.drop_last();
    let whole = sink_batch(nodes, aff, v, name);
    assert(whole == sink_batch(nodes, pre, v, name) + if 0 <= aff.last() < nodes.len()
        && node_annotated(nodes[aff.last() as int], name, true) {
        seq![(nodes[aff.last() as int].path@, v)]
    } else {
        Seq::empty()
    });
    if aff.last() == b as usize {
        assert(nodes[aff.last() as int] == nodes[b]);
        assert(whole[sink_batch(nodes, pre, v, name).len() as int] == (nodes[b].path@, v));
        assert(whole.contains((nodes[b].path@, v)));
    } else {
        let k = choose|k: int| 0 <= k < aff.len() && aff[k] == b as usize;
        assert(pre[k] == b as usize);
        assert(pre.contains(b as usize));
        lemma_sink_batch_has(nodes, pre, v, name, b);
        let k2 = choose|k2: int|
            0 <= k2 < sink_batch(nodes, pre, v, name).len() && sink_batch(nodes, pre, v, name)[k2]
                == (nodes[b].path@, v);
        assert(whole[k2] == (nodes[b].path@, v));
        assert(whole.contains((nodes[b].path@, v)));
    }
}

/// Every pair in a batch comes from an affected node carrying the queried
/// sink annotation and that pair's path.
pub proof fn lemma_sink_batch_only(
    nodes: Seq<Node>,
    aff: Seq<usize>,
    v: Value,
    name: Seq<char>,
    pr: (Seq<char>, Value),
)
    requires
        sink_batch(nodes, aff, v, name).contains(pr),
    ensures
        exists|i: int|
            0 <= i < nodes.len() && aff.contains(i as usize) && node_annotated(
                #[trigger] nodes[i],
                name,
                true,
            ) && nodes[i].path@ == pr.0 && pr.1 == v,
    decreases aff.len(),
{
    let pre = aff.drop_last();
    let whole = sink_batch(nodes, aff, v, name);
    let prebatch = sink_batch(nodes, pre, v, name);
    let k = choose|k: int| 0 <= k < whole.len() && whole[k] == pr;
    if k < prebatch.len() {
        assert(prebatch[k] == pr);
        assert(prebatch.contains(pr));
        lemma_sink_batch_only(nodes, pre, v, name, pr);
        let i = choose|i: int|
            0 <= i < nodes.len() && pre.contains(i as usize) && node_annotated(
                #[trigger] nodes[i],
                name,
                true,
            ) && nodes[i].path@ == pr.0 && pr.1 == v;
        let k3 = choose|k3: int| 0 <= k3 < pre.len() && pre[k3] == i as usize;
        assert(aff[k3] == i as usize);
        assert(aff.contains(i as usize));
    } else {
        let last = aff.last() as int;
        assert(pr == (nodes[last].path@, v));
        assert(aff[aff.len() - 1] == aff.last());
        assert(aff.contains(aff.last()));
    }
}

/// Handling an event at node `a` reaches each node `b` that pulls from
/// `a` directly: `b` now stores the propagated value, and the batch for a
/// handler holds `b`'s pair exactly when `b` carries that sink annotation.
pub proof fn lemma_event_reaches_direct_dependent(
    pre: Seq<Node>,
    post: Seq<Node>,
    gs: Seq<(String, Vec<(String, Value)>)>,
    a: int,
    b: int,
    v: Value,
    name: Seq<char>,
)
    requires
        nodes_wf(pre),
        pre.len() <= usize::MAX,
        0 <= a < pre.len(),
        0 <= b < pre.len(),
        pre[b].bindings@.contains(a as usize),
        propagated(pre, post, gs, a, v),
    ensures
        post[a].value == Some(v),
        post[b].value == Some(v),
        ({
            let aff = affected_spec(deps_of(pre), a as usize);
            sink_batch(pre, aff, v, name).contains((pre[b].path@, v)) <==> node_annotated(
                pre[b],
                name,
                true,
            )
        }),
        node_annotated(pre[b], name, true) ==> (group_get(gs, name) matches Some(batch)
            && batch.contains((pre[b].path@, v))),
{
    let deps = deps_of(pre);
    assert(deps[b] == pre[b].bindings@);
    assert(deps.len() == pre.len());
    lemma_affected_direct(deps, a as usize, b);
    let aff = affected_spec(deps, a as usize);
    assert(post[a] == set_value(pre[a], Some(v)));
    assert(post[b] == set_value(pre[b], Some(v)));
    if node_annotated(pre[b], name, true) {
        lemma_sink_batch_has(pre, aff, v, name, b);
        assert(sink_batch(pre, aff, v, name).len() > 0);
        assert(group_get(gs, name) == expected_group(pre, aff, v, name));
    }
    if sink_batch(pre, aff, v, name).contains((pre[b].path@, v)) {
        lemma_sink_batch_only(pre, aff, v, name, (pre[b].path@, v));
        let i = choose|i: int|
            0 <= i < pre.len() && aff.contains(i as usize) && node_annotated(
                #[trigger] pre[i],
                name,
                true,
            ) && pre[i].path@ == pre[b].path@;
        if i != b {
            assert(pre[i].path@ != pre[b].path@);
        }
    }
}

/// Which node a path names depends on the stored paths alone.
pub proof fn lemma_find_path_same_paths(
    nodes1: Seq<Node>,
    nodes2: Seq<Node>,
    p: Seq<char>,
    i: int,
)
    requires
        nodes1.len() == nodes2.len(),
        forall|k: int| 0 <= k < nodes1.len() ==> (#[trigger] nodes2[k]).path@ == nodes1[k].path@,
    ensures
        find_path_from(nodes2, p, i) == find_path_from(nodes1, p, i),
    decreases nodes1.len() - i,
{
    if i < 0 || i >= nodes1.len() {
    } else {
        lemma_find_path_same_paths(nodes1, nodes2, p, i + 1);
    }
}

/// A batch depends only on the nodes' paths and sink annotations, never on
/// their stored values.
pub proof fn lemma_sink_batch_same_annotations(
    nodes1: Seq<Node>,
    nodes2: Seq<Node>,
    aff: Seq<usize>,
    v: Value,
    name: Seq<char>,
)
    requires
        nodes1.len() == nodes2.len(),
        forall|i: int|
            0 <= i < nodes1.len() ==> (#[trigger] nodes2[i]).path@ == nodes1[i].path@
                && nodes2[i].sink == nodes1[i].sink,
    ensures
        sink_batch(nodes2, aff, v, name) == sink_batch(nodes1, aff, v, name),
    decreases aff.len(),
{
    if aff.len() == 0 {
    } else {
        lemma_sink_batch_same_annotations(nodes1, nodes2, aff.drop_last(), v, name);
    }
}

/// Idempotence: handling the same event twice, with the same path and the
/// same value, leaves the same node values and yields the same batches both
/// times. The second call resolves the path to the same node — lookup reads
/// only the stored paths, which never change — the second pass affects the
/// same nodes — propagation reads only the bindings — and it rewrites the
/// values they already hold.
pub proof fn lemma_handle_event_idempotent(
    pre: Seq<Node>,
    mid: Seq<Node>,
    post: Seq<Node>,
    gs1: Seq<(String, Vec<(String, Value)>)>,
    gs2: Seq<(String, Vec<(String, Value)>)>,
    p: Seq<char>,
    target: int,
    v: Value,
)
    requires
        nodes_wf(pre),
        crate::tree::find_path(pre, p) == Some(target),
        0 <= target < pre.len(),
        propagated(pre, mid, gs1, target, v),
        propagated(mid, post, gs2, target, v),
    ensures
        crate::tree::find_path(mid, p) == Some(target),
        post == mid,
        forall|nm: Seq<char>| #![trigger group_get(gs2, nm)] group_get(gs2, nm) == group_get(
            gs1,
            nm,
        ),
{
    assert forall|k: int| 0 <= k < pre.len() implies (#[trigger] mid[k]).path@ == pre[k].path@ by {
        assert(mid[k] == set_value(pre[k], mid[k].value));
    }
    lemma_find_path_same_paths(pre, mid, p, 0);
    assert(deps_of(mid) =~= deps_of(pre)) by {
        assert forall|i: int| 0 <= i < mid.len() implies (#[trigger] deps_of(mid)[i]) == deps_of(
            pre,
        )[i] by {
            assert(mid[i].bindings@ == pre[i].bindings@);
        }
    }
    let aff = affected_spec(deps_of(pre), target as usize);
    assert(post =~= mid) by {
        assert forall|j: int| 0 <= j < mid.len() implies (#[trigger] post[j]) == mid[j] by {
            if aff.contains(j as usize) {
                assert(mid[j] == set_value(pre[j], Some(v)));
            }
        }
    }
    assert forall|nm: Seq<char>| #![trigger group_get(gs2, nm)] group_get(gs2, nm) == group_get(
        gs1,
        nm,
    ) by {
        lemma_sink_batch_same_annotations(pre, mid, aff, v, nm);
        assert(group_get(gs2, nm) == expected_group(mid, aff, v, nm));
        assert(group_get(gs1, nm) == expected_group(pre, aff, v, nm));
    }
}

/// The affected set is closed under the pull bindings: whenever a node
/// pulls from an affected node, it is affected itself. Together with
/// `lemma_affected_direct` this says one propagation pass reaches every
/// transitive dependent of the event's target.
pub open spec fn closed_under_deps(deps: Seq<Seq<usize>>, r: Seq<usize>) -> bool {
    forall|x: usize, j: int|
        #![trigger r.contains(x), deps[j].contains(x)]
        r.contains(x) && 0 <= j < deps.len() && deps[j].contains(x) ==> r.contains(j as usize)
}

/// The dependents of each of the first `qi` affected nodes are already in
/// the affected list.
pub open spec fn processed_upto(deps: Seq<Seq<usize>>, aff: Seq<usize>, qi: int) -> bool {
    forall|p: int, j: int|
        #![trigger deps[j].contains(aff[p])]
        0 <= p < qi && p < aff.len() && 0 <= j < deps.len() && deps[j].contains(aff[p])
            ==> aff.contains(j as usize)
}

/// A sweep appends at the end: what was in the list stays at its position.
pub proof fn lemma_scan_prefix(deps: Seq<Seq<usize>>, aff: Seq<usize>, cur: usize, j: int)
    ensures
        scan_deps(deps, aff, cur, j).len() >= aff.len(),
        forall|p: int|
            0 <= p < aff.len() ==> (#[trigger] scan_deps(deps, aff, cur, j)[p]) == aff[p],
    decreases deps.len() - j,
{
    if j < 0 || j >= deps.len() {
    } else {
        let aff2 = if deps[j].contains(cur) && !aff.contains(j as usize) {
            aff.push(j as usize)
        } else {
            aff
        };
        lemma_scan_prefix(deps, aff2, cur, j + 1);
    }
}

/// A sweep keeps the affected list free of repeats and within bounds.
pub proof fn lemma_scan_wf(deps: Seq<Seq<usize>>, aff: Seq<usize>, cur: usize, j: int)
    requires
        aff.no_duplicates(),
        forall|k: int| 0 <= k < aff.len() ==> (#[trigger] aff[k]) < deps.len(),
    ensures
        scan_deps(deps, aff, cur, j).no_duplicates(),
        forall|k: int|
            0 <= k < scan_deps(deps, aff, cur, j).len() ==> (#[trigger] scan_deps(
                deps,
                aff,
                cur,
                j,
            )[k]) < deps.len(),
    decreases deps.len() - j,
{
    broadcast use vstd::seq_lib::lemma_seq_contains_after_push;

    if j < 0 || j >= deps.len() {
    } else {
        let aff2 = if deps[j].contains(cur) && !aff.contains(j as usize) {
            aff.push(j as usize)
        } else {
            aff
        };
        if deps[j].contains(cur) && !aff.contains(j as usize) {
            assert(aff2.no_duplicates()) by {
                assert forall|a: int, b: int|
                    0 <= a < aff2.len() && 0 <= b < aff2.len() && a != b implies aff2[a]
                    != aff2[b] by {
                    if a < aff.len() && b < aff.len() {
                        assert(aff[a] != aff[b]);
                    } else if a < aff.len() {
                        if aff[a] == j as usize {
                            assert(aff.contains(j as usize));
                        }
                    } else if b < aff.len() {
                        if aff[b] == j as usize {
                            assert(aff.contains(j as usize));
                        }
                    }
                }
            }
        }
        lemma_scan_wf(deps, aff2, cur, j + 1);
    }
}

/// Running the discovery to its end processes every affected node, so the
/// final affected list is closed under the pull bindings.
pub proof fn lemma_bfs_closed(deps: Seq<Seq<usize>>, aff: Seq<usize>, qi: int, fuel: nat)
    requires
        deps.len() <= usize::MAX,
        aff.no_duplicates(),
        forall|k: int| 0 <= k < aff.len() ==> (#[trigger] aff[k]) < deps.len(),
        0 <= qi <= aff.len(),
        fuel as int >= deps.len() - qi,
        processed_upto(deps, aff, qi),
    ensures
        closed_under_deps(deps, bfs(deps, aff, qi, fuel)),
    decreases fuel,
{
    let r = bfs(deps, aff, qi, fuel);
    if qi >= aff.len() {
        assert(r == aff);
        assert forall|x: usize, j: int|
            r.contains(x) && 0 <= j < deps.len() && (#[trigger] deps[j].contains(
                x,
            )) implies #[trigger] r.contains(j as usize) by {
            let p = choose|p: int| 0 <= p < aff.len() && aff[p] == x;
            assert(deps[j].contains(aff[p]));
        }
    } else {
        assert(fuel > 0) by {
            crate::propagate::lemma_distinct_bounded_len(aff, deps.len() as nat);
        }
        let cur = aff[qi];
        let aff2 = scan_deps(deps, aff, cur, 0);
        lemma_scan_prefix(deps, aff, cur, 0);
        lemma_scan_wf(deps, aff, cur, 0);
        assert(processed_upto(deps, aff2, qi + 1)) by {
            assert forall|p: int, j: int|
                0 <= p < qi + 1 && p < aff2.len() && 0 <= j < deps.len() && (#[trigger] deps[j].contains(
                    aff2[p],
                )) implies aff2.contains(j as usize) by {
                assert(aff2[p] == aff[p]);
                if p < qi {
                    assert(deps[j].contains(aff[p]));
                    assert(aff.contains(j as usize));
                    lemma_scan_keeps(deps, aff, cur, 0, j as usize);
                } else {
                    assert(aff2[p] == cur);
                    lemma_scan_complete(deps, aff, cur, 0, j);
                }
            }
        }
        lemma_bfs_closed(deps, aff2, qi + 1, (fuel - 1) as nat);
    }
}

/// One propagation pass reaches the transitive closure: the affected set of
/// an event at `t` is closed under the pull bindings.
pub proof fn lemma_affected_closed(deps: Seq<Seq<usize>>, t: usize)
    requires
        deps.len() <= usize::MAX,
        (t as int) < deps.len(),
    ensures
        closed_under_deps(deps, affected_spec(deps, t)),
{
    let start: Seq<usize> = seq![t];
    assert(start.no_duplicates());
    assert(start[0] == t);
    lemma_bfs_closed(deps, start, 0, deps.len() as nat);
}

/// Keeping the affected list repeat-free through the whole discovery.
pub proof fn lemma_bfs_no_duplicates(deps: Seq<Seq<usize>>, aff: Seq<usize>, qi: int, fuel: nat)
    requires
        aff.no_duplicates(),
        forall|k: int| 0 <= k < aff.len() ==> (#[trigger] aff[k]) < deps.len(),
    ensures
        bfs(deps, aff, qi, fuel).no_duplicates(),
    decreases fuel,
{
    if fuel == 0 || qi < 0 || qi >= aff.len() {
    } else {
        lemma_scan_wf(deps, aff, aff[qi], 0);
        lemma_bfs_no_duplicates(deps, scan_deps(deps, aff, aff[qi], 0), qi + 1, (fuel - 1) as nat);
    }
}

/// Exactly once: the affected list of one event holds each node at most
/// once, so each node is updated, and its pair reported, a single time per
/// propagation pass.
pub proof fn lemma_affected_no_duplicates(deps: Seq<Seq<usize>>, t: usize)
    requires
        (t as int) < deps.len(),
    ensures
        affected_spec(deps, t).no_duplicates(),
{
    let start: Seq<usize> = seq![t];
    assert(start.no_duplicates());
    assert(start[0] == t);
    lemma_bfs_no_duplicates(deps, start, 0, deps.len() as nat);
}

/// Eager and deferred registration build identical trees: a successful
/// build returns exactly what the grammar assigns to the text, so any two
/// successfully built trees of one text carry the same nodes, whatever
/// handlers were attached along the way.
pub proof fn lemma_builds_agree(t1: Tree, t2: Tree, s: Seq<char>)
    requires
        parse_spec(s) == Ok::<Seq<NodeModel>, Error>(t1.nodes.deep_view()),
        parse_spec(s) == Ok::<Seq<NodeModel>, Error>(t2.nodes.deep_view()),
    ensures
        t1.nodes.deep_view() == t2.nodes.deep_view(),
{
}

} // verus!
