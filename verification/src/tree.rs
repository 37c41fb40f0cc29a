use vstd::prelude::*;

use crate::errors::Error;
use crate::util::str_eq;
use crate::value::Value;

verus! {

/// One node of the tree.
///
/// Nodes are stored flat inside [`Tree`], in declaration order, which is also
/// pre-order: a parent always stands before its children, siblings in the
/// order the text declared them. `parent` is the index of the owning node
/// (the root owns itself), and `bindings` holds the indices of the nodes this
/// node pulls its value from.
pub struct Node {
    /// The last segment of the path.
    pub name: String,
    /// The full slash-delimited path; empty for the root.
    pub path: String,
    /// Index of the parent node; `0` for the root itself.
    pub parent: usize,
    /// The current value, once an event has set one.
    pub value: Option<Value>,
    /// Handler name of the source adapter annotated on this node, if any.
    pub source: Option<String>,
    /// Handler name of the sink adapter annotated on this node, if any.
    pub sink: Option<String>,
    /// Indices of the nodes whose value changes pull into this node.
    pub bindings: Vec<usize>,
}

/// The mathematical image of a [`Node`]: strings as character sequences.
#[verifier::ext_equal]
pub struct NodeModel {
    pub name: Seq<char>,
    pub path: Seq<char>,
    pub parent: int,
    pub value: Option<Value>,
    pub source: Option<Seq<char>>,
    pub sink: Option<Seq<char>>,
    pub bindings: Seq<usize>,
}

impl View for Node {
    type V = NodeModel;

    open spec fn view(&self) -> NodeModel {
        NodeModel {
            name: self.name@,
            path: self.path@,
            parent: self.parent as int,
            value: self.value,
            source: match self.source {
                Option::None => Option::None,
                Option::Some(s) => Option::Some(s@),
            },
            sink: match self.sink {
                Option::None => Option::None,
                Option::Some(s) => Option::Some(s@),
            },
            bindings: self.bindings@,
        }
    }
}

impl DeepView for Node {
    type V = NodeModel;

    open spec fn deep_view(&self) -> NodeModel {
        self.view()
    }
}

/// Well-formedness of the flat node store: one root with the empty path,
/// every other node's parent earlier in the store, no two nodes sharing a
/// path, and every binding resolved to an existing index.
pub open spec fn nodes_wf(nodes: Seq<Node>) -> bool {
    &&& 1 <= nodes.len()
    &&& nodes[0].path@ == Seq::<char>::empty()
    &&& nodes[0].parent == 0
    &&& forall|i: int| 1 <= i < nodes.len() ==> (#[trigger] nodes[i].parent) < i
    &&& forall|i: int, j: int|
        0 <= i < j < nodes.len() ==> (#[trigger] nodes[i].path@) != (#[trigger] nodes[j].path@)
    &&& forall|i: int, k: int|
        0 <= i < nodes.len() && 0 <= k < nodes[i].bindings@.len() ==> (#[trigger] nodes[i].bindings@[k])
            < nodes.len()
}

/// Index of the first node at or after position `i` whose path reads `path`.
pub open spec fn find_path_from(nodes: Seq<Node>, path: Seq<char>, i: int) -> Option<int>
    decreases nodes.len() - i,
{
    if i < 0 || i >= nodes.len() {
        Option::None
    } else if nodes[i].path@ == path {
        Option::Some(i)
    } else {
        find_path_from(nodes, path, i + 1)
    }
}

/// Index of the node whose path reads `path`, if one exists.
pub open spec fn find_path(nodes: Seq<Node>, path: Seq<char>) -> Option<int> {
    find_path_from(nodes, path, 0)
}

/// Whether node `n` carries the given handler annotation: its sink
/// annotation when `sink` is set, its source annotation otherwise.
pub open spec fn node_annotated(n: Node, name: Seq<char>, sink: bool) -> bool {
    if sink {
        n.sink matches Some(s) && s@ == name
    } else {
        n.source matches Some(s) && s@ == name
    }
}

/// The paths of all nodes carrying the given annotation, in store order,
/// which is tree traversal order: parents before children, siblings in
/// declaration order.
pub open spec fn ann_paths(nodes: Seq<Node>, name: Seq<char>, sink: bool) -> Seq<Seq<char>>
    decreases nodes.len(),
{
    if nodes.len() == 0 {
        Seq::empty()
    } else {
        ann_paths(nodes.drop_last(), name, sink) + if node_annotated(nodes.last(), name, sink) {
            seq![nodes.last().path@]
        } else {
            Seq::empty()
        }
    }
}

/// Whether node `i` lies in the subtree rooted at node `r` (including `r`
/// itself), following parent links.
pub open spec fn in_subtree(nodes: Seq<Node>, i: int, r: int) -> bool
    decreases i,
    when 0 <= i < nodes.len() && nodes_wf(nodes)
{
    if i == r {
        true
    } else if i == 0 {
        false
    } else {
        in_subtree(nodes, nodes[i].parent as int, r)
    }
}

/// The models of the nodes among the first `i` that lie in the subtree
/// rooted at `r`, in store order.
pub open spec fn sub_models_upto(nodes: Seq<Node>, r: int, i: int) -> Seq<NodeModel>
    decreases i,
{
    if i <= 0 {
        Seq::empty()
    } else {
        sub_models_upto(nodes, r, i - 1) + if in_subtree(nodes, i - 1, r) {
            seq![nodes[i - 1]@]
        } else {
            Seq::empty()
        }
    }
}

/// A read-only copy of one subtree, handed to adapters so they can inspect
/// the structure and declared values under their own root without seeing
/// the rest of the tree.
pub struct SubTree {
    /// Path of the subtree's root.
    pub root_path: String,
    /// Copies of the nodes of the subtree, in store order.
    pub nodes: Vec<Node>,
}

/// The reactive path tree: a flat store of nodes in declaration order.
///
/// Built once by the builder; afterwards only node values change, and only
/// through event propagation.
pub struct Tree {
    /// The nodes, pre-order, root first.
    pub nodes: Vec<Node>,
}

/// A field-by-field copy of a node; the copy has the same model.
fn copy_node(n: &Node) -> (res: Node)
    ensures
        res@ == n@,
{
    let mut bindings: Vec<usize> = Vec::new();
    let mut k: usize = 0;
    while k < n.bindings.len()
        invariant
            k <= n.bindings@.len(),
            bindings@ == n.bindings@.take(k as int),
        decreases n.bindings@.len() - k,
    {
        bindings.push(n.bindings[k]);
        proof {
            assert(n.bindings@.take(k + 1) =~= n.bindings@.take(k as int).push(n.bindings@[k as int]));
        }
        k += 1;
    }
    proof {
        assert(n.bindings@.take(n.bindings@.len() as int) =~= n.bindings@);
    }
    Node {
        name: n.name.clone(),
        path: n.path.clone(),
        parent: n.parent,
        value: match &n.value {
            Option::None => Option::None,
            Option::Some(v) => Option::Some(v.clone()),
        },
        source: match &n.source {
            Option::None => Option::None,
            Option::Some(s) => Option::Some(s.clone()),
        },
        sink: match &n.sink {
            Option::None => Option::None,
            Option::Some(s) => Option::Some(s.clone()),
        },
        bindings,
    }
}

impl Tree {
    /// Well-formedness: established by the builder, preserved by every
    /// method.
    pub open spec fn wf(&self) -> bool {
        nodes_wf(self.nodes@)
    }

    /// The root node.
    pub fn root(&self) -> (r: &Node)
        requires
            self.wf(),
        ensures
            *r == self.nodes@[0],
    {
        &self.nodes[0]
    }

    /// Index of the node at `path`, if the tree has one.
    pub fn find_index(&self, path: &str) -> (r: Option<usize>)
        ensures
            match r {
                Some(i) => {
                    &&& find_path(self.nodes@, path@) == Some(i as int)
                    &&& i < self.nodes@.len()
                    &&& self.nodes@[i as int].path@ == path@
                },
                None => find_path(self.nodes@, path@) is None,
            },
    {
        let n = self.nodes.len();
        let mut i: usize = 0;
        while i < n
            invariant
                n == self.nodes@.len(),
                i <= n,
                find_path(self.nodes@, path@) == find_path_from(self.nodes@, path@, i as int),
            decreases n - i,
        {
            if str_eq(self.nodes[i].path.as_str(), path) {
                return Some(i);
            }
            i += 1;
        }
        None
    }

    /// Look a node up by its full path; `NoSuchPath` when the tree has no
    /// node there.
    pub fn lookup(&self, path: &str) -> (r: Result<&Node, Error>)
        requires
            self.wf(),
        ensures
            match r {
                Ok(n) => find_path(self.nodes@, path@) matches Some(i) && *n == self.nodes@[i],
                Err(e) => find_path(self.nodes@, path@) is None && e matches Error::NoSuchPath,
            },
    {
        match self.find_index(path) {
            Some(i) => Ok(&self.nodes[i]),
            None => Err(Error::NoSuchPath),
        }
    }

    /// The paths annotated with the given handler name, sources or sinks.
    fn find_annotated(&self, name: &str, sink: bool) -> (r: Vec<String>)
        ensures
            r.deep_view() == ann_paths(self.nodes@, name@, sink),
    {
        let n = self.nodes.len();
        let mut out: Vec<String> = Vec::new();
        let mut i: usize = 0;
        while i < n
            invariant
                n == self.nodes@.len(),
                i <= n,
                out.deep_view() == ann_paths(self.nodes@.take(i as int), name@, sink),
            decreases n - i,
        {
            let ann = if sink {
                &self.nodes[i].sink
            } else {
                &self.nodes[i].source
            };
            let matched = match ann {
                Option::Some(s) => str_eq(s.as_str(), name),
                Option::None => false,
            };
            proof {
                assert(self.nodes@.take(i + 1).drop_last() =~= self.nodes@.take(i as int));
                assert(self.nodes@.take(i + 1).last() == self.nodes@[i as int]);
            }
            if matched {
                out.push(self.nodes[i].path.clone());
                proof {
                    assert(out.deep_view() =~= ann_paths(self.nodes@.take(i + 1), name@, sink));
                }
            } else {
                proof {
                    assert(out.deep_view() =~= ann_paths(self.nodes@.take(i + 1), name@, sink));
                }
            }
            i += 1;
        }
        proof {
            assert(self.nodes@.take(n as int) =~= self.nodes@);
        }
        out
    }

    /// Exactly the paths annotated `^name`, in declaration order; empty when
    /// none exist.
    pub fn find_sources(&self, name: &str) -> (r: Vec<String>)
        ensures
            r.deep_view() == ann_paths(self.nodes@, name@, false),
    {
        self.find_annotated(name, false)
    }

    /// Exactly the paths annotated `$name`, in declaration order; empty when
    /// none exist.
    pub fn find_sinks(&self, name: &str) -> (r: Vec<String>)
        ensures
            r.deep_view() == ann_paths(self.nodes@, name@, true),
    {
        self.find_annotated(name, true)
    }

    /// Whether node `i` lies under node `r`, following parent links.
    fn is_under(&self, i: usize, r: usize) -> (b: bool)
        requires
            self.wf(),
            i < self.nodes@.len(),
            r < self.nodes@.len(),
        ensures
            b == in_subtree(self.nodes@, i as int, r as int),
    {
        let mut c: usize = i;
        loop
            invariant
                self.wf(),
                c < self.nodes@.len(),
                r < self.nodes@.len(),
                in_subtree(self.nodes@, i as int, r as int) == in_subtree(
                    self.nodes@,
                    c as int,
                    r as int,
                ),
            decreases c,
        {
            if c == r {
                return true;
            }
            if c == 0 {
                return false;
            }
            c = self.nodes[c].parent;
        }
    }

    /// A read-only copy of the subtree rooted at `node`, which must be a
    /// node of this tree (identified by its path).
    pub fn subtree_at(&self, node: &Node) -> (r: Result<SubTree, Error>)
        requires
            self.wf(),
        ensures
            match r {
                Ok(st) => {
                    &&& find_path(self.nodes@, node.path@) matches Some(ri) && st.nodes.deep_view()
                        == sub_models_upto(self.nodes@, ri, self.nodes@.len() as int)
                    &&& st.root_path@ == node.path@
                },
                Err(e) => find_path(self.nodes@, node.path@) is None && e matches Error::NoSuchPath,
            },
    {
        let ri = match self.find_index(node.path.as_str()) {
            Some(ri) => ri,
            None => {
                return Err(Error::NoSuchPath);
            },
        };
        let n = self.nodes.len();
        let mut out: Vec<Node> = Vec::new();
        let mut i: usize = 0;
        while i < n
            invariant
                self.wf(),
                n == self.nodes@.len(),
                ri < n,
                i <= n,
                out.deep_view() == sub_models_upto(self.nodes@, ri as int, i as int),
            decreases n - i,
        {
            if self.is_under(i, ri) {
                out.push(copy_node(&self.nodes[i]));
                proof {
                    assert(out.deep_view() =~= sub_models_upto(self.nodes@, ri as int, i + 1));
                }
            } else {
                proof {
                    assert(out.deep_view() =~= sub_models_upto(self.nodes@, ri as int, i + 1));
                }
            }
            i += 1;
        }
        Ok(SubTree { root_path: node.path.clone(), nodes: out })
    }
}

} // verus!
