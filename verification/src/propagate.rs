use vstd::prelude::*;

use crate::errors::Error;
use crate::groups::{add_pair, group_get, EventGroups};
use crate::tree::{find_path, node_annotated, nodes_wf, Node, Tree};
use crate::util::vec_contains_usize;
use crate::value::Value;

verus! {

/// The dependency lists of all nodes: entry `j` holds the indices of the
/// nodes that node `j` pulls its value from. Propagation depends on these
/// lists alone, never on the stored values.
pub open spec fn deps_of(nodes: Seq<Node>) -> Seq<Seq<usize>> {
    nodes.map_values(|nd: Node| nd.bindings@)
}

/// One sweep over all nodes: append to `aff`, in store order, every node at
/// or after position `j` that pulls from `cur` and is not yet affected.
pub open spec fn scan_deps(deps: Seq<Seq<usize>>, aff: Seq<usize>, cur: usize, j: int) -> Seq<
    usize,
>
    decreases deps.len() - j,
{
    if j < 0 || j >= deps.len() {
        aff
    } else {
        let aff2 = if deps[j].contains(cur) && !aff.contains(j as usize) {
            aff.push(j as usize)
        } else {
            aff
        };
        scan_deps(deps, aff2, cur, j + 1)
    }
}

/// Breadth-first closure of the dependency relation: position `qi` is the
/// next affected node whose dependents are still to be discovered. `fuel`
/// bounds the number of steps; the number of nodes always suffices, because
/// the affected list never repeats an index.
pub open spec fn bfs(deps: Seq<Seq<usize>>, aff: Seq<usize>, qi: int, fuel: nat) -> Seq<usize>
    decreases fuel,
{
    if fuel == 0 || qi < 0 || qi >= aff.len() {
        aff
    } else {
        bfs(deps, scan_deps(deps, aff, aff[qi], 0), qi + 1, (fuel - 1) as nat)
    }
}

/// The nodes affected by an event at node `target`: the target itself and
/// every transitive dependent, each exactly once, in discovery order.
pub open spec fn affected_spec(deps: Seq<Seq<usize>>, target: usize) -> Seq<usize> {
    bfs(deps, seq![target], 0, deps.len() as nat)
}

/// Node `n` with its value replaced and every other attribute kept.
pub open spec fn set_value(n: Node, v: Option<Value>) -> Node {
    Node { value: v, ..n }
}

/// The batch owed to sink handler `name`: the path of every affected node
/// annotated `$name`, paired with the propagated value, in discovery order.
pub open spec fn sink_batch(
    nodes: Seq<Node>,
    aff: Seq<usize>,
    v: Value,
    name: Seq<char>,
) -> Seq<(Seq<char>, Value)>
    decreases aff.len(),
{
    if aff.len() == 0 {
        Seq::empty()
    } else {
        let last = aff.last() as int;
        sink_batch(nodes, aff.drop_last(), v, name) + if 0 <= last < nodes.len()
            && node_annotated(nodes[last], name, true) {
            seq![(nodes[last].path@, v)]
        } else {
            Seq::empty()
        }
    }
}

/// The group owed to handler `name`: `None` exactly when no affected node
/// carries that sink annotation.
pub open spec fn expected_group(
    nodes: Seq<Node>,
    aff: Seq<usize>,
    v: Value,
    name: Seq<char>,
) -> Option<Seq<(Seq<char>, Value)>> {
    let b = sink_batch(nodes, aff, v, name);
    if b.len() == 0 {
        Option::None
    } else {
        Option::Some(b)
    }
}

/// What one successful `handle_event` call does: every affected node now
/// holds the event's value, every other node is untouched, and the returned
/// groups map each sink handler name to exactly its owed batch.
pub open spec fn propagated(
    pre: Seq<Node>,
    post: Seq<Node>,
    gs: Seq<(String, Vec<(String, Value)>)>,
    target: int,
    v: Value,
) -> bool {
    let aff = affected_spec(deps_of(pre), target as usize);
    &&& post.len() == pre.len()
    &&& forall|j: int|
        #![trigger post[j]]
        0 <= j < pre.len() ==> post[j] == set_value(
            pre[j],
            if aff.contains(j as usize) {
                Option::Some(v)
            } else {
                pre[j].value
            },
        )
    &&& forall|nm: Seq<char>|
        #![trigger group_get(gs, nm)]
        group_get(gs, nm) == expected_group(pre, aff, v, nm)
}

/// A sequence of distinct indices below `n` holds at most `n` of them.
pub proof fn lemma_distinct_bounded_len(s: Seq<usize>, n: nat)
    requires
        s.no_duplicates(),
        forall|k: int| 0 <= k < s.len() ==> (#[trigger] s[k]) < n,
    ensures
        s.len() <= n,
{
    let t = s.map_values(|x: usize| x as int);
    assert(t.no_duplicates()) by {
        assert forall|i: int, j: int|
            0 <= i < t.len() && 0 <= j < t.len() && i != j implies t[i] != t[j] by {
            assert(s[i] != s[j]);
        }
    }
    t.unique_seq_to_set();
    assert(t.to_set().subset_of(vstd::set_lib::set_int_range(0, n as int))) by {
        assert forall|x: int| t.to_set().contains(x) implies vstd::set_lib::set_int_range(
            0,
            n as int,
        ).contains(x) by {
            assert(t.contains(x));
            let k = choose|k: int| 0 <= k < t.len() && t[k] == x;
            assert(s[k] < n);
        }
    }
    vstd::set_lib::lemma_int_range(0, n as int);
    vstd::set_lib::lemma_len_subset(t.to_set(), vstd::set_lib::set_int_range(0, n as int));
}

impl Tree {
    /// Handle one external event: store `value` at `path`, then propagate it
    /// along the pull bindings to every transitive dependent, updating and
    /// reporting each affected node exactly once, and group the affected
    /// sink-annotated paths by handler name in discovery order. Fails — with
    /// the tree untouched — exactly when no node carries `path`; once the
    /// path resolves, propagation is total.
    pub fn handle_event(&mut self, path: &str, value: Value) -> (r: Result<EventGroups, Error>)
        requires
            old(self).wf(),
        ensures
            final(self).wf(),
            match r {
                Ok(groups) => find_path(old(self).nodes@, path@) matches Some(t) && propagated(
                    old(self).nodes@,
                    final(self).nodes@,
                    groups.groups@,
                    t,
                    value,
                ),
                Err(e) => {
                    &&& *final(self) == *old(self)
                    &&& find_path(old(self).nodes@, path@) is None
                    &&& e matches Error::NoSuchPath
                },
            },
    {
        broadcast use vstd::seq_lib::lemma_seq_contains_after_push;

        let n = self.nodes.len();
        let t = match self.find_index(path) {
            Some(t) => t,
            None => {
                return Err(Error::NoSuchPath);
            },
        };
        let ghost nodes0 = self.nodes@;
        let ghost deps = deps_of(nodes0);
        {
            let el = &mut self.nodes[t];
            el.value = Some(value.clone());
        }
        let mut aff: Vec<usize> = Vec::new();
        aff.push(t);
        proof {
            assert(deps_of(self.nodes@) =~= deps);
            assert(aff@ =~= seq![t]);
            assert(bfs(deps, aff@, 0, (n - 0) as nat) == affected_spec(deps, t));
            assert forall|j: int| #![trigger self.nodes@[j]] 0 <= j < n implies self.nodes@[j]
                == set_value(
                nodes0[j],
                if aff@.contains(j as usize) {
                    Option::Some(value)
                } else {
                    nodes0[j].value
                },
            ) by {
                if j == t {
                    assert(aff@[0] == t);
                    assert(aff@.contains(t));
                } else {
                    assert(forall|k: int| 0 <= k < aff@.len() ==> aff@[k] == t);
                    assert(!aff@.contains(j as usize));
                }
            }
        }
        let mut qi: usize = 0;
        while qi < aff.len()
            invariant
                nodes_wf(nodes0),
                n == nodes0.len(),
                self.nodes@.len() == n,
                t < n,
                deps == deps_of(nodes0),
                deps_of(self.nodes@) == deps,
                deps.len() == n,
                aff@.no_duplicates(),
                forall|k: int| 0 <= k < aff@.len() ==> (#[trigger] aff@[k]) < n,
                aff@.len() <= n,
                qi <= aff@.len(),
                bfs(deps, aff@, qi as int, (n - qi) as nat) == affected_spec(deps, t),
                forall|j: int|
                    #![trigger self.nodes@[j]]
                    0 <= j < n ==> self.nodes@[j] == set_value(
                        nodes0[j],
                        if aff@.contains(j as usize) {
                            Option::Some(value)
                        } else {
                            nodes0[j].value
                        },
                    ),
            decreases n - qi,
        {
            let cur = aff[qi];
            let ghost aff_entry = aff@;
            let mut j: usize = 0;
            while j < n
                invariant
                    nodes_wf(nodes0),
                    n == nodes0.len(),
                    self.nodes@.len() == n,
                    t < n,
                    deps == deps_of(nodes0),
                    deps_of(self.nodes@) == deps,
                    deps.len() == n,
                    aff@.no_duplicates(),
                    forall|k: int| 0 <= k < aff@.len() ==> (#[trigger] aff@[k]) < n,
                    aff@.len() <= n,
                    j <= n,
                    qi < aff_entry.len(),
                    aff_entry.len() <= aff@.len(),
                    aff_entry[qi as int] == cur,
                    scan_deps(deps, aff@, cur, j as int) == scan_deps(deps, aff_entry, cur, 0),
                    bfs(deps, aff_entry, qi as int, (n - qi) as nat) == affected_spec(deps, t),
                    forall|j2: int|
                        #![trigger self.nodes@[j2]]
                        0 <= j2 < n ==> self.nodes@[j2] == set_value(
                            nodes0[j2],
                            if aff@.contains(j2 as usize) {
                                Option::Some(value)
                            } else {
                                nodes0[j2].value
                            },
                        ),
                decreases n - j,
            {
                let depends = vec_contains_usize(&self.nodes[j].bindings, cur);
                let already = vec_contains_usize(&aff, j);
                proof {
                    assert(deps[j as int] == self.nodes@[j as int].bindings@);
                    assert(deps[j as int] == nodes0[j as int].bindings@);
                }
                if depends && !already {
                    let ghost aff_old = aff@;
                    {
                        let el = &mut self.nodes[j];
                        el.value = Some(value.clone());
                    }
                    aff.push(j);
                    proof {
                        assert(deps_of(self.nodes@) =~= deps);
                        assert(aff@ == aff_old.push(j));
                        assert(aff@.len() == aff_old.len() + 1);
                        assert(aff@[aff_old.len() as int] == j as usize);
                        assert(aff@.contains(j as usize));
                        assert forall|x: usize| #[trigger] aff@.contains(x) implies (aff_old.contains(
                            x,
                        ) || x == j as usize) by {
                            let k = choose|k: int| 0 <= k < aff@.len() && aff@[k] == x;
                            if k < aff_old.len() {
                                assert(aff_old[k] == x);
                            }
                        }
                        assert forall|x: usize| #[trigger] aff_old.contains(x) implies aff@.contains(
                            x,
                        ) by {
                            let k = choose|k: int| 0 <= k < aff_old.len() && aff_old[k] == x;
                            assert(aff@[k] == x);
                        }
                        assert(aff@.no_duplicates()) by {
                            assert forall|a: int, b: int|
                                0 <= a < aff@.len() && 0 <= b < aff@.len() && a != b implies aff@[a]
                                != aff@[b] by {
                                if a < aff_old.len() && b < aff_old.len() {
                                    assert(aff_old[a] != aff_old[b]);
                                } else if a < aff_old.len() {
                                    assert(aff@[b] == j as usize);
                                    if aff_old[a] == j as usize {
                                        assert(aff_old.contains(j as usize));
                                    }
                                } else if b < aff_old.len() {
                                    assert(aff@[a] == j as usize);
                                    if aff_old[b] == j as usize {
                                        assert(aff_old.contains(j as usize));
                                    }
                                }
                            }
                        }
                        lemma_distinct_bounded_len(aff@, n as nat);
                        assert(scan_deps(deps, aff_old, cur, j as int) == scan_deps(
                            deps,
                            aff@,
                            cur,
                            j + 1,
                        ));
                        assert forall|j2: int| #![trigger self.nodes@[j2]] 0 <= j2 < n implies self
                            .nodes@[j2] == set_value(
                            nodes0[j2],
                            if aff@.contains(j2 as usize) {
                                Option::Some(value)
                            } else {
                                nodes0[j2].value
                            },
                        ) by {
                            if j2 == j {
                                assert(aff@.contains(j as usize));
                            }
                        }
                    }
                } else {
                    proof {
                        assert(scan_deps(deps, aff@, cur, j as int) == scan_deps(
                            deps,
                            aff@,
                            cur,
                            j + 1,
                        ));
                    }
                }
                j += 1;
            }
            proof {
                assert(scan_deps(deps, aff@, cur, n as int) == aff@);
                assert(aff@ == scan_deps(deps, aff_entry, cur, 0));
                assert(bfs(deps, aff_entry, qi as int, (n - qi) as nat) == bfs(
                    deps,
                    aff@,
                    qi + 1,
                    (n - (qi + 1)) as nat,
                ));
            }
            qi += 1;
        }
        proof {
            assert(bfs(deps, aff@, qi as int, (n - qi) as nat) == aff@);
            assert(aff@ == affected_spec(deps, t));
        }
        let mut groups: Vec<(String, Vec<(String, Value)>)> = Vec::new();
        let alen = aff.len();
        let mut q2: usize = 0;
        while q2 < alen
            invariant
                alen == aff@.len(),
                q2 <= alen,
                n == nodes0.len(),
                self.nodes@.len() == n,
                forall|k: int| 0 <= k < aff@.len() ==> (#[trigger] aff@[k]) < n,
                forall|j2: int|
                    #![trigger self.nodes@[j2]]
                    0 <= j2 < n ==> self.nodes@[j2] == set_value(
                        nodes0[j2],
                        if aff@.contains(j2 as usize) {
                            Option::Some(value)
                        } else {
                            nodes0[j2].value
                        },
                    ),
                forall|nm: Seq<char>|
                    #![trigger group_get(groups@, nm)]
                    group_get(groups@, nm) == expected_group(
                        nodes0,
                        aff@.take(q2 as int),
                        value,
                        nm,
                    ),
            decreases alen - q2,
        {
            let idx = aff[q2];
            proof {
                assert(aff@.take(q2 + 1).drop_last() =~= aff@.take(q2 as int));
                assert(aff@.take(q2 + 1).last() == aff@[q2 as int]);
                assert(self.nodes@[idx as int] == set_value(
                    nodes0[idx as int],
                    if aff@.contains(idx) {
                        Option::Some(value)
                    } else {
                        nodes0[idx as int].value
                    },
                ));
            }
            let ghost prevgs = groups@;
            match &self.nodes[idx].sink {
                Some(s) => {
                    add_pair(&mut groups, s, &self.nodes[idx].path, &value);
                    proof {
                        let sv = s@;
                        assert(nodes0[idx as int].sink matches Some(s0) && s0@ == sv);
                        assert(nodes0[idx as int].path@ == self.nodes@[idx as int].path@);
                        assert forall|nm: Seq<char>| #![trigger group_get(groups@, nm)] group_get(
                            groups@,
                            nm,
                        ) == expected_group(nodes0, aff@.take(q2 + 1), value, nm) by {
                            let b0 = sink_batch(nodes0, aff@.take(q2 as int), value, nm);
                            if nm == sv {
                                assert(node_annotated(nodes0[idx as int], nm, true));
                                assert(sink_batch(nodes0, aff@.take(q2 + 1), value, nm) == b0
                                    + seq![(nodes0[idx as int].path@, value)]);
                                assert(b0.push((nodes0[idx as int].path@, value)) =~= b0
                                    + seq![(nodes0[idx as int].path@, value)]);
                                assert((b0 + seq![(nodes0[idx as int].path@, value)]).len() > 0);
                            } else {
                                assert(!node_annotated(nodes0[idx as int], nm, true));
                                assert(sink_batch(nodes0, aff@.take(q2 + 1), value, nm) == b0
                                    + Seq::empty());
                                assert(b0 + Seq::<(Seq<char>, Value)>::empty() =~= b0);
                            }
                        }
                    }
                },
                None => {
                    proof {
                        assert(nodes0[idx as int].sink is None);
                        assert forall|nm: Seq<char>| #![trigger group_get(groups@, nm)] group_get(
                            groups@,
                            nm,
                        ) == expected_group(nodes0, aff@.take(q2 + 1), value, nm) by {
                            let b0 = sink_batch(nodes0, aff@.take(q2 as int), value, nm);
                            assert(!node_annotated(nodes0[idx as int], nm, true));
                            assert(sink_batch(nodes0, aff@.take(q2 + 1), value, nm) == b0
                                + Seq::empty());
                            assert(b0 + Seq::<(Seq<char>, Value)>::empty() =~= b0);
                        }
                    }
                },
            }
            q2 += 1;
        }
        proof {
            assert(aff@.take(alen as int) =~= aff@);
            assert forall|i: int| 0 <= i < n implies (#[trigger] self.nodes@[i]).path@
                == nodes0[i].path@ && self.nodes@[i].parent == nodes0[i].parent && self.nodes@[i].bindings@
                == nodes0[i].bindings@ by {}
            assert(nodes_wf(self.nodes@)) by {
                assert(self.nodes@[0].path@ == nodes0[0].path@);
                assert forall|i: int, j2: int| 0 <= i < j2 < n implies (#[trigger] self.nodes@[i].path@)
                    != (#[trigger] self.nodes@[j2].path@) by {
                    assert(nodes0[i].path@ != nodes0[j2].path@);
                }
            }
        }
        Ok(EventGroups { groups })
    }
}

} // verus!
