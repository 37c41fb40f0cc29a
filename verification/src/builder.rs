use vstd::prelude::*;

use crate::errors::Error;
use crate::handles::{SinkRef, SourceRef};
use crate::parse::{all_values_unset, parse_spec, parse_text, respects_rank};
use crate::tree::{ann_paths, NodeModel, Tree};
use crate::util::str_eq;

verus! {

/// The names under which handlers were registered, in registration order.
pub open spec fn source_names(hs: Seq<(String, SourceRef)>) -> Seq<Seq<char>> {
    hs.map_values(|h: (String, SourceRef)| h.0@)
}

/// The names under which sink handlers were registered.
pub open spec fn sink_names(hs: Seq<(String, SinkRef)>) -> Seq<Seq<char>> {
    hs.map_values(|h: (String, SinkRef)| h.0@)
}

/// Builds a [`Tree`] from text, optionally attaching named adapter handles
/// in the same pass.
///
/// With no handlers registered, `build_from_str` is a pure parse, and the
/// caller wires adapters afterwards through `find_sources` / `find_sinks`
/// (deferred registration). With handlers registered beforehand (eager
/// registration), every node annotated with a registered name receives an
/// `add_path` call against the bound handle during the build, and each sink
/// handle that received at least one path gets one `on_ready` call. Either
/// way the resulting tree is the same: the tree stores handler names only,
/// never handles.
pub struct TreeBuilder {
    /// Source handles to attach eagerly, by handler name.
    pub source_handlers: Vec<(String, SourceRef)>,
    /// Sink handles to attach eagerly, by handler name.
    pub sink_handlers: Vec<(String, SinkRef)>,
}

impl Default for TreeBuilder {
    /// A builder with no handlers registered.
    fn default() -> (r: TreeBuilder)
        ensures
            r.source_handlers@.len() == 0,
            r.sink_handlers@.len() == 0,
    {
        TreeBuilder { source_handlers: Vec::new(), sink_handlers: Vec::new() }
    }
}

impl TreeBuilder {
    /// Register a source handler for eager attachment; fails exactly when
    /// the name is already registered as a source handler.
    pub fn add_source_handler(self, name: &str, handler: &SourceRef) -> (r: Result<
        TreeBuilder,
        Error,
    >)
        ensures
            match r {
                Ok(b) => {
                    &&& !source_names(self.source_handlers@).contains(name@)
                    &&& source_names(b.source_handlers@) == source_names(
                        self.source_handlers@,
                    ).push(name@)
                    &&& b.sink_handlers@ == self.sink_handlers@
                },
                Err(e) => source_names(self.source_handlers@).contains(name@) && e matches Error::DuplicateHandler,
            },
    {
        let n = self.source_handlers.len();
        let mut i: usize = 0;
        while i < n
            invariant
                n == self.source_handlers@.len(),
                i <= n,
                forall|k: int| 0 <= k < i ==> (#[trigger] self.source_handlers@[k].0@) != name@,
            decreases n - i,
        {
            if str_eq(self.source_handlers[i].0.as_str(), name) {
                assert(source_names(self.source_handlers@)[i as int] == name@);
                return Err(Error::DuplicateHandler);
            }
            i += 1;
        }
        proof {
            assert forall|k: int|
                0 <= k < source_names(self.source_handlers@).len() implies (#[trigger] source_names(
                self.source_handlers@,
            )[k]) != name@ by {
                assert(self.source_handlers@[k].0@ != name@);
            }
        }
        let ghost orig = self;
        let mut b = self;
        b.source_handlers.push((name.to_owned(), handler.clone()));
        proof {
            assert(source_names(b.source_handlers@) =~= source_names(orig.source_handlers@).push(
                name@,
            ));
        }
        Ok(b)
    }

    /// Register a sink handler for eager attachment; fails exactly when the
    /// name is already registered as a sink handler.
    pub fn add_sink_handler(self, name: &str, handler: &SinkRef) -> (r: Result<TreeBuilder, Error>)
        ensures
            match r {
                Ok(b) => {
                    &&& !sink_names(self.sink_handlers@).contains(name@)
                    &&& sink_names(b.sink_handlers@) == sink_names(self.sink_handlers@).push(name@)
                    &&& b.source_handlers@ == self.source_handlers@
                },
                Err(e) => sink_names(self.sink_handlers@).contains(name@) && e matches Error::DuplicateHandler,
            },
    {
        let n = self.sink_handlers.len();
        let mut i: usize = 0;
        while i < n
            invariant
                n == self.sink_handlers@.len(),
                i <= n,
                forall|k: int| 0 <= k < i ==> (#[trigger] self.sink_handlers@[k].0@) != name@,
            decreases n - i,
        {
            if str_eq(self.sink_handlers[i].0.as_str(), name) {
                assert(sink_names(self.sink_handlers@)[i as int] == name@);
                return Err(Error::DuplicateHandler);
            }
            i += 1;
        }
        proof {
            assert forall|k: int|
                0 <= k < sink_names(self.sink_handlers@).len() implies (#[trigger] sink_names(
                self.sink_handlers@,
            )[k]) != name@ by {
                assert(self.sink_handlers@[k].0@ != name@);
            }
        }
        let ghost orig = self;
        let mut b = self;
        b.sink_handlers.push((name.to_owned(), handler.clone()));
        proof {
            assert(sink_names(b.sink_handlers@) =~= sink_names(orig.sink_handlers@).push(name@));
        }
        Ok(b)
    }

    /// Attach every registered handler to `tree`: each node annotated with
    /// a registered name gets one `add_path` call on the bound handle, in
    /// tree order, and each sink handle with at least one path one
    /// `on_ready` call; any adapter failure aborts the wiring. A handler
    /// whose name annotates no node receives no call at all, so when no
    /// registered name matches any node the wiring always succeeds.
    pub fn wire(&self, tree: &Tree) -> (r: Result<(), Error>)
        requires
            tree.wf(),
        ensures
            ((forall|k: int|
                0 <= k < self.source_handlers@.len() ==> ann_paths(
                    tree.nodes@,
                    (#[trigger] self.source_handlers@[k].0@),
                    false,
                ).len() == 0) && (forall|k: int|
                0 <= k < self.sink_handlers@.len() ==> ann_paths(
                    tree.nodes@,
                    (#[trigger] self.sink_handlers@[k].0@),
                    true,
                ).len() == 0)) ==> r is Ok,
    {
        let ns = self.source_handlers.len();
        let mut h: usize = 0;
        while h < ns
            invariant
                tree.wf(),
                ns == self.source_handlers@.len(),
                h <= ns,
            decreases ns - h,
        {
            let name = &self.source_handlers[h].0;
            let handle = &self.source_handlers[h].1;
            let paths = tree.find_sources(name.as_str());
            let np = paths.len();
            let mut p: usize = 0;
            while p < np
                invariant
                    tree.wf(),
                    ns == self.source_handlers@.len(),
                    h < ns,
                    np == paths@.len(),
                    paths.deep_view() == ann_paths(tree.nodes@, self.source_handlers@[h as int].0@, false),
                    p <= np,
                decreases np - p,
            {
                proof {
                    assert(ann_paths(tree.nodes@, self.source_handlers@[h as int].0@, false).len()
                        > 0);
                }
                let node = match tree.lookup(paths[p].as_str()) {
                    Ok(node) => node,
                    Err(e) => {
                        return Err(e);
                    },
                };
                let st = match tree.subtree_at(node) {
                    Ok(st) => st,
                    Err(e) => {
                        return Err(e);
                    },
                };
                match handle.add_path(paths[p].as_str(), &st) {
                    Ok(u) => u,
                    Err(e) => {
                        return Err(e);
                    },
                };
                p += 1;
            }
            h += 1;
        }
        let nk = self.sink_handlers.len();
        let mut h2: usize = 0;
        while h2 < nk
            invariant
                tree.wf(),
                nk == self.sink_handlers@.len(),
                h2 <= nk,
            decreases nk - h2,
        {
            let name = &self.sink_handlers[h2].0;
            let handle = &self.sink_handlers[h2].1;
            let paths = tree.find_sinks(name.as_str());
            let np = paths.len();
            let mut p: usize = 0;
            while p < np
                invariant
                    tree.wf(),
                    nk == self.sink_handlers@.len(),
                    h2 < nk,
                    np == paths@.len(),
                    paths.deep_view() == ann_paths(tree.nodes@, self.sink_handlers@[h2 as int].0@, true),
                    p <= np,
                decreases np - p,
            {
                proof {
                    assert(ann_paths(tree.nodes@, self.sink_handlers@[h2 as int].0@, true).len()
                        > 0);
                }
                let node = match tree.lookup(paths[p].as_str()) {
                    Ok(node) => node,
                    Err(e) => {
                        return Err(e);
                    },
                };
                let st = match tree.subtree_at(node) {
                    Ok(st) => st,
                    Err(e) => {
                        return Err(e);
                    },
                };
                match handle.add_path(paths[p].as_str(), &st) {
                    Ok(u) => u,
                    Err(e) => {
                        return Err(e);
                    },
                };
                p += 1;
            }
            if np > 0 {
                proof {
                    assert(ann_paths(tree.nodes@, self.sink_handlers@[h2 as int].0@, true).len()
                        > 0);
                }
                let root = tree.root();
                let st = match tree.subtree_at(root) {
                    Ok(st) => st,
                    Err(e) => {
                        return Err(e);
                    },
                };
                match handle.on_ready(&st) {
                    Ok(u) => u,
                    Err(e) => {
                        return Err(e);
                    },
                };
            }
            h2 += 1;
        }
        Ok(())
    }

    /// Parse `text` and attach the registered handlers in the same pass.
    /// Every parse failure, and every adapter failure during wiring, aborts
    /// the build: no partial tree is returned. A returned tree is exactly
    /// what the grammar (`parse_spec`) assigns to the text — so any two
    /// successful builds of one text, eager or deferred, yield the same
    /// tree — and a text the grammar rejects is rejected here with the
    /// grammar's own error; a failure on a grammatical text can only come
    /// out of an adapter call during wiring.
    pub fn build_from_str(self, text: &str) -> (r: Result<Tree, Error>)
        ensures
            r matches Ok(t) ==> parse_spec(text@) == Ok::<Seq<NodeModel>, Error>(
                t.nodes.deep_view(),
            ),
            parse_spec(text@) matches Err(pe) ==> r matches Err(e) && e == pe,
            r matches Ok(t) ==> t.wf() && all_values_unset(t.nodes@) && exists|rank: Map<int, int>|
                respects_rank(t.nodes@, rank),
    {
        let tree = match parse_text(text) {
            Ok(tree) => tree,
            Err(e) => {
                return Err(e);
            },
        };
        match self.wire(&tree) {
            Ok(u) => u,
            Err(e) => {
                return Err(e);
            },
        };
        Ok(tree)
    }
}

} // verus!
