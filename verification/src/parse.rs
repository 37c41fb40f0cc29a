use vstd::prelude::*;

use crate::errors::Error;
use crate::tree::{nodes_wf, Node, NodeModel, Tree};
use crate::util::str_eq;

verus! {

/// A tree fresh from the builder stores no value anywhere: values appear
/// only once an event has set one.
pub open spec fn all_values_unset(nodes: Seq<Node>) -> bool {
    forall|i: int| 0 <= i < nodes.len() ==> (#[trigger] nodes[i]).value is None
}

/// `rank` witnesses that the binding graph is acyclic: every pull binding
/// leads to a node of strictly smaller rank, so no chain of bindings can
/// return to its start and propagation always runs out of dependents.
pub open spec fn respects_rank(nodes: Seq<Node>, rank: Map<int, int>) -> bool {
    forall|i: int, k: int|
        0 <= i < nodes.len() && 0 <= k < nodes[i].bindings@.len() ==> rank[(
        #[trigger] nodes[i].bindings@[k]) as int] < rank[i]
}

/// The parser's intermediate state, at the level of the mathematical model:
/// the nodes built so far, the stack of open nodes (root to deepest), and
/// the pull-binding lines waiting for resolution.
#[verifier::ext_equal]
pub struct ParseState {
    pub nodes: Seq<NodeModel>,
    pub stack: Seq<usize>,
    pub pending: Seq<(usize, Seq<char>)>,
}

/// The state before any line: one root node with the empty path.
pub open spec fn init_state() -> ParseState {
    ParseState {
        nodes: seq![
            NodeModel {
                name: Seq::empty(),
                path: Seq::empty(),
                parent: 0,
                value: None,
                source: None,
                sink: None,
                bindings: Seq::empty(),
            },
        ],
        stack: seq![0usize],
        pending: Seq::empty(),
    }
}

/// Index of the first character at or after `i` that is not a space.
pub open spec fn skip_spaces(s: Seq<char>, i: int) -> int
    decreases s.len() - i,
{
    if i < 0 || i >= s.len() || s[i] != ' ' {
        i
    } else {
        skip_spaces(s, i + 1)
    }
}

/// Index of the line break at or after `i`, or the end of the text.
pub open spec fn line_end(s: Seq<char>, i: int) -> int
    decreases s.len() - i,
{
    if i < 0 || i >= s.len() || s[i] == '\n' {
        i
    } else {
        line_end(s, i + 1)
    }
}

/// What one non-empty line does to the state, per the grammar: a line's
/// indentation is whole levels of four spaces, at most one level deeper
/// than the innermost open node; `$name` and `^name` annotate the open node
/// at their level, at most once each; `<-` records a pull binding onto that
/// node, toward an absolute path; a bare name opens a child, closing
/// everything deeper, provided no node carries the same path already.
pub open spec fn step_line(st: ParseState, s: Seq<char>, pos: int, start: int, end: int) -> Result<
    ParseState,
    Error,
> {
    let sp = start - pos;
    let level = sp / 4;
    if sp % 4 != 0 {
        Err(Error::BadIndent)
    } else if s[start] == '$' || s[start] == '^' {
        let name = s.subrange(start + 1, end);
        if !valid_ident_spec(name) {
            Err(Error::Malformed)
        } else if level >= st.stack.len() {
            Err(Error::BadIndent)
        } else {
            let tgt = st.stack[level] as int;
            let node = st.nodes[tgt];
            if s[start] == '$' {
                if node.sink is Some {
                    Err(Error::DuplicateAnnotation)
                } else {
                    Ok(
                        ParseState {
                            nodes: st.nodes.update(tgt, NodeModel { sink: Some(name), ..node }),
                            ..st
                        },
                    )
                }
            } else {
                if node.source is Some {
                    Err(Error::DuplicateAnnotation)
                } else {
                    Ok(
                        ParseState {
                            nodes: st.nodes.update(tgt, NodeModel { source: Some(name), ..node }),
                            ..st
                        },
                    )
                }
            }
        }
    } else if s[start] == '<' {
        if start + 1 >= end || s[start + 1] != '-' {
            Err(Error::UnknownSigil)
        } else if start + 2 >= end || s[start + 2] != '/' {
            Err(Error::Malformed)
        } else if level >= st.stack.len() {
            Err(Error::BadIndent)
        } else {
            Ok(
                ParseState {
                    pending: st.pending.push((st.stack[level], s.subrange(start + 2, end))),
                    ..st
                },
            )
        }
    } else if !ident_char_spec(s[start]) {
        Err(Error::UnknownSigil)
    } else {
        let name = s.subrange(start, end);
        if !valid_ident_spec(name) {
            Err(Error::Malformed)
        } else if level + 1 > st.stack.len() {
            Err(Error::BadIndent)
        } else {
            let stack2 = st.stack.take(level + 1);
            let parent = stack2[level] as int;
            let newpath = st.nodes[parent].path + seq!['/'] + name;
            if exists|k: int| 0 <= k < st.nodes.len() && (#[trigger] st.nodes[k]).path == newpath {
                Err(Error::DuplicatePath)
            } else {
                Ok(
                    ParseState {
                        nodes: st.nodes.push(
                            NodeModel {
                                name: name,
                                path: newpath,
                                parent: parent,
                                value: None,
                                source: None,
                                sink: None,
                                bindings: Seq::empty(),
                            },
                        ),
                        stack: stack2.push(st.nodes.len() as usize),
                        pending: st.pending,
                    },
                )
            }
        }
    }
}

/// The whole first pass: fold `step_line` over the text, one line at a
/// time, skipping blank lines, stopping at the first failure.
pub open spec fn parse_lines(s: Seq<char>, pos: int, st: ParseState) -> Result<ParseState, Error>
    decreases s.len() - pos,
    via parse_lines_decreases
{
    if pos < 0 || pos >= s.len() {
        Ok(st)
    } else {
        let start = skip_spaces(s, pos);
        let end = line_end(s, start);
        let next = if end < s.len() {
            end + 1
        } else {
            s.len() as int
        };
        if start == end {
            parse_lines(s, next, st)
        } else {
            match step_line(st, s, pos, start, end) {
                Err(e) => Err(e),
                Ok(st2) => parse_lines(s, next, st2),
            }
        }
    }
}

/// Skipping spaces never moves backwards nor past the end.
pub proof fn lemma_skip_spaces_bounds(s: Seq<char>, i: int)
    requires
        0 <= i <= s.len(),
    ensures
        i <= skip_spaces(s, i) <= s.len(),
    decreases s.len() - i,
{
    if i < s.len() && s[i] == ' ' {
        lemma_skip_spaces_bounds(s, i + 1);
    }
}

/// The line break search never moves backwards nor past the end.
pub proof fn lemma_line_end_bounds(s: Seq<char>, i: int)
    requires
        0 <= i <= s.len(),
    ensures
        i <= line_end(s, i) <= s.len(),
    decreases s.len() - i,
{
    if i < s.len() && s[i] != '\n' {
        lemma_line_end_bounds(s, i + 1);
    }
}

#[via_fn]
proof fn parse_lines_decreases(s: Seq<char>, pos: int, st: ParseState) {
    if 0 <= pos < s.len() {
        lemma_skip_spaces_bounds(s, pos);
        lemma_line_end_bounds(s, skip_spaces(s, pos));
    }
}

/// Index of the first model node at or after `i` whose path reads `path`.
pub open spec fn find_path_model(nodes: Seq<NodeModel>, path: Seq<char>, i: int) -> Option<int>
    decreases nodes.len() - i,
{
    if i < 0 || i >= nodes.len() {
        None
    } else if nodes[i].path == path {
        Some(i)
    } else {
        find_path_model(nodes, path, i + 1)
    }
}

/// The second pass: resolve each recorded pull-binding line to the index
/// of the node carrying its target path; a target no node carries fails
/// the build.
pub open spec fn resolve(
    nodes: Seq<NodeModel>,
    pending: Seq<(usize, Seq<char>)>,
    i: int,
) -> Result<Seq<NodeModel>, Error>
    decreases pending.len() - i,
{
    if i < 0 || i >= pending.len() {
        Ok(nodes)
    } else {
        match find_path_model(nodes, pending[i].1, 0) {
            None => Err(Error::UnresolvedBinding),
            Some(k) => {
                let idx = pending[i].0 as int;
                let node = nodes[idx];
                resolve(
                    nodes.update(idx, NodeModel { bindings: node.bindings.push(k as usize), ..node }),
                    pending,
                    i + 1,
                )
            },
        }
    }
}

/// Whether every pull target of one node is already settled.
pub open spec fn deps_done(bs: Seq<usize>, done: Seq<bool>) -> bool {
    forall|k: int| 0 <= k < bs.len() ==> (#[trigger] bs[k]) < done.len() && done[bs[k] as int]
}

/// One settling sweep: mark, in store order, every node all of whose pull
/// targets are already marked.
pub open spec fn sweep(nodes: Seq<NodeModel>, done: Seq<bool>, i: int) -> Seq<bool>
    decreases nodes.len() - i,
{
    if i < 0 || i >= nodes.len() {
        done
    } else {
        let done2 = if !done[i] && deps_done(nodes[i].bindings, done) {
            done.update(i, true)
        } else {
            done
        };
        sweep(nodes, done2, i + 1)
    }
}

/// As many sweeps as the fuel allows; one sweep per node always suffices
/// on an acyclic binding graph.
pub open spec fn settle(nodes: Seq<NodeModel>, done: Seq<bool>, fuel: nat) -> Seq<bool>
    decreases fuel,
{
    if fuel == 0 {
        done
    } else {
        settle(nodes, sweep(nodes, done, 0), (fuel - 1) as nat)
    }
}

/// A mark vector with nothing settled yet.
pub open spec fn no_marks(n: nat) -> Seq<bool> {
    Seq::new(n, |i: int| false)
}

/// The third pass: the binding graph is cycle-free exactly when every node
/// settles within as many sweeps as there are nodes.
pub open spec fn all_settled(nodes: Seq<NodeModel>) -> bool {
    let d = settle(nodes, no_marks(nodes.len()), nodes.len());
    forall|j: int| 0 <= j < nodes.len() ==> d[j]
}

/// What parsing a text yields: the grammar of the tree description as one
/// function from the characters to the built nodes, or to the failure. The
/// executable parser returns exactly this.
pub open spec fn parse_spec(s: Seq<char>) -> Result<Seq<NodeModel>, Error> {
    match parse_lines(s, 0, init_state()) {
        Err(e) => Err(e),
        Ok(st) => match resolve(st.nodes, st.pending, 0) {
            Err(e) => Err(e),
            Ok(nodes) => if all_settled(nodes) {
                Ok(nodes)
            } else {
                Err(Error::BindingCycle)
            },
        },
    }
}

/// The model of the pending pull-binding lines.
pub open spec fn pend_view(ps: Seq<(usize, String)>) -> Seq<(usize, Seq<char>)> {
    ps.map_values(|p: (usize, String)| (p.0, p.1@))
}

/// The characters allowed in a segment or handler name: ASCII letters,
/// digits, underscore and hyphen.
pub open spec fn ident_char_spec(c: char) -> bool {
    let u = c as u32;
    (97 <= u && u <= 122) || (65 <= u && u <= 90) || (48 <= u && u <= 57) || u == 95 || u == 45
}

/// A name is one or more identifier characters.
pub open spec fn valid_ident_spec(s: Seq<char>) -> bool {
    s.len() > 0 && forall|k: int| 0 <= k < s.len() ==> ident_char_spec(s[k])
}

fn is_ident_char(c: char) -> (r: bool)
    ensures
        r == ident_char_spec(c),
{
    let u = c as u32;
    (97 <= u && u <= 122) || (65 <= u && u <= 90) || (48 <= u && u <= 57) || u == 95 || u == 45
}

fn valid_ident(s: &str) -> (r: bool)
    ensures
        r == valid_ident_spec(s@),
{
    let m = s.unicode_len();
    if m == 0 {
        return false;
    }
    let mut k: usize = 0;
    while k < m
        invariant
            m == s@.len(),
            k <= m,
            forall|q: int| 0 <= q < k ==> ident_char_spec(s@[q]),
        decreases m - k,
    {
        if !is_ident_char(s.get_char(k)) {
            return false;
        }
        k += 1;
    }
    true
}

/// First non-space position at or after `pos`.
fn scan_spaces(text: &str, pos: usize) -> (r: usize)
    requires
        pos <= text@.len(),
    ensures
        r == skip_spaces(text@, pos as int),
        pos <= r <= text@.len(),
{
    let m = text.unicode_len();
    let mut i: usize = pos;
    while i < m
        invariant
            m == text@.len(),
            pos <= i <= m,
            skip_spaces(text@, pos as int) == skip_spaces(text@, i as int),
        decreases m - i,
    {
        if text.get_char(i) != ' ' {
            return i;
        }
        i += 1;
    }
    i
}

/// Position of the line break at or after `start`, or the end of the text.
fn scan_line_end(text: &str, start: usize) -> (r: usize)
    requires
        start <= text@.len(),
    ensures
        r == line_end(text@, start as int),
        start <= r <= text@.len(),
{
    let m = text.unicode_len();
    let mut i: usize = start;
    while i < m
        invariant
            m == text@.len(),
            start <= i <= m,
            line_end(text@, start as int) == line_end(text@, i as int),
        decreases m - i,
    {
        if text.get_char(i) == '\n' {
            return i;
        }
        i += 1;
    }
    i
}

/// Path search over the nodes and over their models find the same index.
pub proof fn lemma_find_path_agrees(vnodes: Seq<Node>, mnodes: Seq<NodeModel>, p: Seq<char>, i: int)
    requires
        vnodes.len() == mnodes.len(),
        forall|k: int| 0 <= k < vnodes.len() ==> (#[trigger] mnodes[k]) == vnodes[k]@,
    ensures
        crate::tree::find_path_from(vnodes, p, i) == find_path_model(mnodes, p, i),
    decreases vnodes.len() - i,
{
    if i < 0 || i >= vnodes.len() {
    } else {
        lemma_find_path_agrees(vnodes, mnodes, p, i + 1);
    }
}

/// Parse the indentation-based text into a tree.
///
/// Each level of nesting is four spaces. A bare name opens a child of the
/// current node; `$name` and `^name` annotate the current node as sink- or
/// source-handled; `<-/abs/path` adds a pull binding onto the current node.
/// Every failure — bad indentation, an unknown sigil, a malformed name, a
/// duplicate path or annotation, an unresolved binding target, or a binding
/// cycle — aborts the build; no partial tree is ever returned. The result is
/// exactly what the grammar says: `parse_spec` of the characters, success
/// and failure alike.
#[verifier::rlimit(60)]
#[verifier::loop_isolation(false)]
pub fn parse_text(text: &str) -> (r: Result<Tree, Error>)
    ensures
        r matches Ok(t) ==> parse_spec(text@) == Ok::<Seq<NodeModel>, Error>(t.nodes.deep_view()),
        r matches Err(e) ==> parse_spec(text@) == Err::<Seq<NodeModel>, Error>(e),
        r matches Ok(t) ==> t.wf() && all_values_unset(t.nodes@) && exists|rank: Map<int, int>|
            respects_rank(t.nodes@, rank),
        r matches Err(e) ==> e is BadIndent || e is UnknownSigil || e is Malformed
            || e is DuplicatePath || e is DuplicateAnnotation || e is UnresolvedBinding
            || e is BindingCycle,
{
    let ghost s = text@;
    let m = text.unicode_len();
    let mut nodes: Vec<Node> = Vec::new();
    nodes.push(
        Node {
            name: String::new(),
            path: String::new(),
            parent: 0,
            value: None,
            source: None,
            sink: None,
            bindings: Vec::new(),
        },
    );
    let mut stack: Vec<usize> = Vec::new();
    stack.push(0);
    let mut pending: Vec<(usize, String)> = Vec::new();
    proof {
        assert(nodes.deep_view() =~~= init_state().nodes);
        assert(stack@ =~= init_state().stack);
        assert(pend_view(pending@) =~= init_state().pending);
        assert(ParseState { nodes: nodes.deep_view(), stack: stack@, pending: pend_view(pending@) }
            =~~= init_state());
    }
    let mut pos: usize = 0;
    while pos < m
        invariant
            s == text@,
            m == text@.len(),
            pos <= m,
            nodes_wf(nodes@),
            all_values_unset(nodes@),
            stack@.len() >= 1,
            stack@[0] == 0,
            forall|k: int| 0 <= k < stack@.len() ==> (#[trigger] stack@[k]) < nodes@.len(),
            forall|k: int| 0 <= k < pending@.len() ==> (#[trigger] pending@[k]).0 < nodes@.len(),
            parse_lines(
                s,
                pos as int,
                ParseState { nodes: nodes.deep_view(), stack: stack@, pending: pend_view(pending@) },
            ) == parse_lines(s, 0, init_state()),
        decreases m - pos,
    {
        let start = scan_spaces(text, pos);
        let sp = start - pos;
        let end = scan_line_end(text, start);
        let ghost st_pre = ParseState {
            nodes: nodes.deep_view(),
            stack: stack@,
            pending: pend_view(pending@),
        };
        let ghost next: int = if end < m {
            end + 1
        } else {
            m as int
        };
        if start < end {
            let ghost step = step_line(st_pre, s, pos as int, start as int, end as int);
            if sp % 4 != 0 {
                proof {
                    assert(parse_lines(s, pos as int, st_pre) == Err::<ParseState, Error>(
                        Error::BadIndent,
                    ));
                }
                return Err(Error::BadIndent);
            }
            let level = sp / 4;
            let c = text.get_char(start);
            proof {
                assert(c == s[start as int]);
                assert(level == (start - pos) as int / 4);
            }
            if c == '$' || c == '^' {
                let name = text.substring_char(start + 1, end);
                let ghost nm = s.subrange(start + 1, end as int);
                if !valid_ident(name) {
                    proof {
                        assert(step == Err::<ParseState, Error>(Error::Malformed));
                        assert(parse_lines(s, pos as int, st_pre) == step);
                    }
                    return Err(Error::Malformed);
                }
                if level >= stack.len() {
                    proof {
                        assert(step == Err::<ParseState, Error>(Error::BadIndent));
                        assert(parse_lines(s, pos as int, st_pre) == step);
                    }
                    return Err(Error::BadIndent);
                }
                let tgt = stack[level];
                let ghost nodes_old = nodes@;
                let el = &mut nodes[tgt];
                if c == '$' {
                    if el.sink.is_some() {
                        proof {
                            assert(st_pre.nodes[tgt as int].sink is Some);
                            assert(step == Err::<ParseState, Error>(Error::DuplicateAnnotation));
                            assert(parse_lines(s, pos as int, st_pre) == step);
                        }
                        return Err(Error::DuplicateAnnotation);
                    }
                    el.sink = Some(name.to_owned());
                } else {
                    if el.source.is_some() {
                        proof {
                            assert(st_pre.nodes[tgt as int].source is Some);
                            assert(step == Err::<ParseState, Error>(Error::DuplicateAnnotation));
                            assert(parse_lines(s, pos as int, st_pre) == step);
                        }
                        return Err(Error::DuplicateAnnotation);
                    }
                    el.source = Some(name.to_owned());
                }
                proof {
                    assert(nodes@.len() == nodes_old.len());
                    assert forall|i: int| 0 <= i < nodes@.len() implies (#[trigger] nodes@[i]).path@
                        == nodes_old[i].path@ && nodes@[i].parent == nodes_old[i].parent
                        && nodes@[i].bindings@ == nodes_old[i].bindings@ && nodes@[i].value
                        == nodes_old[i].value by {}
                    assert(nodes_wf(nodes@)) by {
                        assert(nodes@[0].path@ == nodes_old[0].path@);
                        assert forall|i: int, j: int| 0 <= i < j < nodes@.len() implies (
                        #[trigger] nodes@[i].path@) != (#[trigger] nodes@[j].path@) by {
                            assert(nodes_old[i].path@ != nodes_old[j].path@);
                        }
                    }
                    let st_post = ParseState {
                        nodes: nodes.deep_view(),
                        stack: stack@,
                        pending: pend_view(pending@),
                    };
                    if c == '$' {
                        assert(st_post.nodes =~~= st_pre.nodes.update(
                            tgt as int,
                            NodeModel { sink: Some(nm), ..st_pre.nodes[tgt as int] },
                        ));
                    } else {
                        assert(st_post.nodes =~~= st_pre.nodes.update(
                            tgt as int,
                            NodeModel { source: Some(nm), ..st_pre.nodes[tgt as int] },
                        ));
                    }
                    assert(step matches Ok(st2) && st_post =~~= st2);
                    assert(parse_lines(s, pos as int, st_pre) == parse_lines(s, next, st_post));
                }
            } else if c == '<' {
                if start + 1 >= end || text.get_char(start + 1) != '-' {
                    proof {
                        assert(step == Err::<ParseState, Error>(Error::UnknownSigil));
                        assert(parse_lines(s, pos as int, st_pre) == step);
                    }
                    return Err(Error::UnknownSigil);
                }
                if start + 2 >= end || text.get_char(start + 2) != '/' {
                    proof {
                        assert(step == Err::<ParseState, Error>(Error::Malformed));
                        assert(parse_lines(s, pos as int, st_pre) == step);
                    }
                    return Err(Error::Malformed);
                }
                if level >= stack.len() {
                    proof {
                        assert(step == Err::<ParseState, Error>(Error::BadIndent));
                        assert(parse_lines(s, pos as int, st_pre) == step);
                    }
                    return Err(Error::BadIndent);
                }
                let tgt = stack[level];
                let tpath = text.substring_char(start + 2, end);
                pending.push((tgt, tpath.to_owned()));
                proof {
                    let st_post = ParseState {
                        nodes: nodes.deep_view(),
                        stack: stack@,
                        pending: pend_view(pending@),
                    };
                    assert(st_post.pending =~= st_pre.pending.push(
                        (tgt, s.subrange(start + 2, end as int)),
                    ));
                    assert(step matches Ok(st2) && st_post =~~= st2);
                    assert(parse_lines(s, pos as int, st_pre) == parse_lines(s, next, st_post));
                }
            } else {
                if !is_ident_char(c) {
                    proof {
                        assert(step == Err::<ParseState, Error>(Error::UnknownSigil));
                        assert(parse_lines(s, pos as int, st_pre) == step);
                    }
                    return Err(Error::UnknownSigil);
                }
                let name = text.substring_char(start, end);
                let ghost nm = s.subrange(start as int, end as int);
                if !valid_ident(name) {
                    proof {
                        assert(step == Err::<ParseState, Error>(Error::Malformed));
                        assert(parse_lines(s, pos as int, st_pre) == step);
                    }
                    return Err(Error::Malformed);
                }
                if level + 1 > stack.len() {
                    proof {
                        assert(step == Err::<ParseState, Error>(Error::BadIndent));
                        assert(parse_lines(s, pos as int, st_pre) == step);
                    }
                    return Err(Error::BadIndent);
                }
                stack.truncate(level + 1);
                let parent = stack[level];
                let mut p = nodes[parent].path.clone();
                p.append("/");
                p.append(name);
                let ghost newpath = st_pre.nodes[parent as int].path + seq!['/'] + nm;
                proof {
                    reveal_strlit("/");
                    assert("/"@ =~= seq!['/']);
                    assert(stack@ =~= st_pre.stack.take(level + 1));
                    assert(p@ =~= newpath);
                }
                let nn = nodes.len();
                let mut di: usize = 0;
                while di < nn
                    invariant
                        nn == nodes@.len(),
                        di <= nn,
                        p@ == newpath,
                        st_pre.nodes == nodes.deep_view(),
                        forall|k: int| 0 <= k < di ==> (#[trigger] nodes@[k].path@) != p@,
                    decreases nn - di,
                {
                    if str_eq(nodes[di].path.as_str(), p.as_str()) {
                        proof {
                            assert(valid_ident_spec(nm));
                            assert(level + 1 <= st_pre.stack.len());
                            assert(st_pre.stack.take(level + 1)[level as int] == parent);
                            assert(st_pre.nodes[di as int].path == newpath);
                            assert(exists|k: int|
                                0 <= k < st_pre.nodes.len() && (#[trigger] st_pre.nodes[k]).path
                                    == newpath);
                            assert(step == Err::<ParseState, Error>(Error::DuplicatePath));
                            assert(parse_lines(s, pos as int, st_pre) == step);
                        }
                        return Err(Error::DuplicatePath);
                    }
                    di += 1;
                }
                proof {
                    assert forall|k: int| 0 <= k < st_pre.nodes.len() implies (
                    #[trigger] st_pre.nodes[k]).path != newpath by {
                        assert(nodes@[k].path@ != p@);
                    }
                }
                let ghost nodes_old = nodes@;
                let newidx = nodes.len();
                nodes.push(
                    Node {
                        name: name.to_owned(),
                        path: p,
                        parent,
                        value: None,
                        source: None,
                        sink: None,
                        bindings: Vec::new(),
                    },
                );
                stack.push(newidx);
                proof {
                    assert(nodes@.len() == nodes_old.len() + 1);
                    assert forall|i: int| 0 <= i < nodes_old.len() implies nodes@[i]
                        == nodes_old[i] by {}
                    assert(nodes@[newidx as int].value is None);
                    assert(nodes_wf(nodes@)) by {
                        assert(nodes@[0] == nodes_old[0]);
                        assert(nodes@[newidx as int].parent < newidx);
                        assert forall|i: int| 1 <= i < nodes@.len() implies (
                        #[trigger] nodes@[i].parent) < i by {
                            if i < newidx {
                                assert(nodes_old[i].parent < i);
                            }
                        }
                        assert forall|i: int, j: int| 0 <= i < j < nodes@.len() implies (
                        #[trigger] nodes@[i].path@) != (#[trigger] nodes@[j].path@) by {
                            if j < newidx {
                                assert(nodes_old[i].path@ != nodes_old[j].path@);
                            } else {
                                assert(nodes@[i] == nodes_old[i]);
                            }
                        }
                        assert forall|i: int, k: int|
                            0 <= i < nodes@.len() && 0 <= k < nodes@[i].bindings@.len() implies (
                        #[trigger] nodes@[i].bindings@[k]) < nodes@.len() by {
                            if i < newidx {
                                assert(nodes_old[i].bindings@[k] < nodes_old.len());
                            }
                        }
                    }
                    let st_post = ParseState {
                        nodes: nodes.deep_view(),
                        stack: stack@,
                        pending: pend_view(pending@),
                    };
                    assert(st_post.nodes =~~= st_pre.nodes.push(
                        NodeModel {
                            name: nm,
                            path: newpath,
                            parent: parent as int,
                            value: None,
                            source: None,
                            sink: None,
                            bindings: Seq::empty(),
                        },
                    ));
                    assert(st_post.stack =~= st_pre.stack.take(level + 1).push(
                        st_pre.nodes.len() as usize,
                    ));
                    assert(step matches Ok(st2) && st_post =~~= st2);
                    assert(parse_lines(s, pos as int, st_pre) == parse_lines(s, next, st_post));
                }
            }
        } else {
            proof {
                assert(parse_lines(s, pos as int, st_pre) == parse_lines(s, next, st_pre));
            }
        }
        if end < m {
            pos = end + 1;
        } else {
            pos = m;
        }
    }
    let ghost st_final = ParseState {
        nodes: nodes.deep_view(),
        stack: stack@,
        pending: pend_view(pending@),
    };
    proof {
        assert(parse_lines(s, pos as int, st_final) == Ok::<ParseState, Error>(st_final));
        assert(parse_lines(s, 0, init_state()) == Ok::<ParseState, Error>(st_final));
    }
    let mut tree = Tree { nodes };
    let np = pending.len();
    let mut pi: usize = 0;
    while pi < np
        invariant
            tree.wf(),
            all_values_unset(tree.nodes@),
            np == pending@.len(),
            pi <= np,
            st_final.pending == pend_view(pending@),
            forall|k: int| 0 <= k < pending@.len() ==> (#[trigger] pending@[k]).0 < tree.nodes@.len(),
            resolve(tree.nodes.deep_view(), st_final.pending, pi as int) == resolve(
                st_final.nodes,
                st_final.pending,
                0,
            ),
        decreases np - pi,
    {
        let idx = pending[pi].0;
        let ghost deep_pre = tree.nodes.deep_view();
        proof {
            lemma_find_path_agrees(tree.nodes@, deep_pre, pending@[pi as int].1@, 0);
            assert(st_final.pending[pi as int].1 == pending@[pi as int].1@);
        }
        let k = match tree.find_index(pending[pi].1.as_str()) {
            Some(k) => k,
            None => {
                proof {
                    assert(find_path_model(deep_pre, st_final.pending[pi as int].1, 0) is None);
                    assert(resolve(deep_pre, st_final.pending, pi as int)
                        == Err::<Seq<NodeModel>, Error>(Error::UnresolvedBinding));
                    assert(resolve(st_final.nodes, st_final.pending, 0)
                        == Err::<Seq<NodeModel>, Error>(Error::UnresolvedBinding));
                    assert(parse_spec(s) == Err::<Seq<NodeModel>, Error>(Error::UnresolvedBinding));
                }
                return Err(Error::UnresolvedBinding);
            },
        };
        let ghost nodes_old = tree.nodes@;
        let el = &mut tree.nodes[idx];
        el.bindings.push(k);
        proof {
            assert(tree.nodes@.len() == nodes_old.len());
            assert forall|i: int| 0 <= i < tree.nodes@.len() implies (#[trigger] tree.nodes@[i]).path@
                == nodes_old[i].path@ && tree.nodes@[i].parent == nodes_old[i].parent
                && tree.nodes@[i].value == nodes_old[i].value by {}
            assert(nodes_wf(tree.nodes@)) by {
                assert(tree.nodes@[0].path@ == nodes_old[0].path@);
                assert forall|i: int, j: int| 0 <= i < j < tree.nodes@.len() implies (
                #[trigger] tree.nodes@[i].path@) != (#[trigger] tree.nodes@[j].path@) by {
                    assert(nodes_old[i].path@ != nodes_old[j].path@);
                }
                assert forall|i: int, kk: int|
                    0 <= i < tree.nodes@.len() && 0 <= kk < tree.nodes@[i].bindings@.len() implies (
                #[trigger] tree.nodes@[i].bindings@[kk]) < tree.nodes@.len() by {
                    if i == idx {
                        if kk < nodes_old[i].bindings@.len() {
                            assert(nodes_old[i].bindings@[kk] < nodes_old.len());
                        } else {
                            assert(tree.nodes@[i].bindings@[kk] == k);
                        }
                    } else {
                        assert(tree.nodes@[i].bindings@ == nodes_old[i].bindings@);
                        assert(nodes_old[i].bindings@[kk] < nodes_old.len());
                    }
                }
            }
            let deep_post = tree.nodes.deep_view();
            assert(deep_post =~~= deep_pre.update(
                idx as int,
                NodeModel {
                    bindings: deep_pre[idx as int].bindings.push(k),
                    ..deep_pre[idx as int]
                },
            ));
            assert(resolve(deep_pre, st_final.pending, pi as int) == resolve(
                deep_post,
                st_final.pending,
                pi + 1,
            ));
        }
        pi += 1;
    }
    let ghost model = tree.nodes.deep_view();
    proof {
        assert(resolve(model, st_final.pending, np as int) == Ok::<Seq<NodeModel>, Error>(model));
        assert(resolve(st_final.nodes, st_final.pending, 0) == Ok::<Seq<NodeModel>, Error>(model));
    }
    // Reject binding cycles: sweep as many rounds as there are nodes; in an
    // acyclic graph each round settles at least one more node, so any node
    // still unsettled afterwards lies on or behind a cycle.
    let n = tree.nodes.len();
    let mut done: Vec<bool> = Vec::new();
    let mut zi: usize = 0;
    while zi < n
        invariant
            done@.len() == zi,
            zi <= n,
            forall|j: int| 0 <= j < zi ==> !(#[trigger] done@[j]),
        decreases n - zi,
    {
        done.push(false);
        zi += 1;
    }
    let ghost dinit = done@;
    proof {
        assert(dinit =~= no_marks(model.len()));
    }
    let ghost mut rank: Map<int, int> = Map::empty();
    let ghost mut order: int = 0;
    let mut round: usize = 0;
    while round < n
        invariant
            tree.wf(),
            all_values_unset(tree.nodes@),
            n == tree.nodes@.len(),
            model == tree.nodes.deep_view(),
            done@.len() == n,
            round <= n,
            settle(model, done@, (n - round) as nat) == settle(model, dinit, n as nat),
            forall|j: int| 0 <= j < n && (#[trigger] done@[j]) ==> rank[j] < order,
            forall|j: int, k: int|
                0 <= j < n && done@[j] && 0 <= k < tree.nodes@[j].bindings@.len() ==> done@[(
                #[trigger] tree.nodes@[j].bindings@[k]) as int] && rank[tree.nodes@[j].bindings@[k] as int]
                    < rank[j],
        decreases n - round,
    {
        let ghost done_entry = done@;
        let mut i: usize = 0;
        while i < n
            invariant
                tree.wf(),
                n == tree.nodes@.len(),
                model == tree.nodes.deep_view(),
                done@.len() == n,
                i <= n,
                sweep(model, done@, i as int) == sweep(model, done_entry, 0),
                forall|j: int| 0 <= j < n && (#[trigger] done@[j]) ==> rank[j] < order,
                forall|j: int, k: int|
                    0 <= j < n && done@[j] && 0 <= k < tree.nodes@[j].bindings@.len() ==> done@[(
                    #[trigger] tree.nodes@[j].bindings@[k]) as int] && rank[tree.nodes@[j].bindings@[k] as int]
                        < rank[j],
            decreases n - i,
        {
            if !done[i] {
                let mut ok = true;
                let bl = tree.nodes[i].bindings.len();
                let mut bi: usize = 0;
                while bi < bl
                    invariant
                        tree.wf(),
                        n == tree.nodes@.len(),
                        model == tree.nodes.deep_view(),
                        done@.len() == n,
                        i < n,
                        bl == tree.nodes@[i as int].bindings@.len(),
                        bi <= bl,
                        ok == (forall|k: int|
                            0 <= k < bi ==> (#[trigger] model[i as int].bindings[k]) < done@.len()
                                && done@[model[i as int].bindings[k] as int]),
                    decreases bl - bi,
                {
                    let b = tree.nodes[i].bindings[bi];
                    proof {
                        assert(tree.nodes@[i as int].bindings@[bi as int] < n);
                        assert(model[i as int].bindings[bi as int] == b);
                    }
                    if !done[b] {
                        ok = false;
                    }
                    bi += 1;
                }
                proof {
                    assert(ok == deps_done(model[i as int].bindings, done@));
                }
                if ok {
                    let ghost done_old = done@;
                    done[i] = true;
                    proof {
                        assert(done@ =~= done_old.update(i as int, true));
                        assert(sweep(model, done_old, i as int) == sweep(model, done@, i + 1));
                        rank = rank.insert(i as int, order);
                        order = order + 1;
                        assert forall|j: int| 0 <= j < n && (#[trigger] done@[j]) implies rank[j]
                            < order by {
                            if j != i {
                                assert(done_old[j]);
                            }
                        }
                        assert forall|j: int, k: int|
                            0 <= j < n && done@[j] && 0 <= k < tree.nodes@[j].bindings@.len() implies done@[(
                        #[trigger] tree.nodes@[j].bindings@[k]) as int] && rank[tree.nodes@[j].bindings@[k] as int]
                            < rank[j] by {
                            let tgtk = tree.nodes@[j].bindings@[k] as int;
                            assert(model[j].bindings[k] == tree.nodes@[j].bindings@[k]);
                            if j == i {
                                assert(done_old[tgtk]);
                                assert(tgtk != i);
                            } else {
                                assert(done_old[j]);
                                assert(done_old[tgtk]);
                                assert(tgtk != i);
                            }
                        }
                    }
                } else {
                    proof {
                        assert(sweep(model, done@, i as int) == sweep(model, done@, i + 1));
                    }
                }
            } else {
                proof {
                    assert(sweep(model, done@, i as int) == sweep(model, done@, i + 1));
                }
            }
            i += 1;
        }
        proof {
            assert(sweep(model, done@, n as int) == done@);
            assert(settle(model, done_entry, (n - round) as nat) == settle(
                model,
                done@,
                (n - round - 1) as nat,
            ));
        }
        round += 1;
    }
    proof {
        assert(settle(model, done@, 0) == done@);
        assert(done@ == settle(model, dinit, n as nat));
    }
    let mut ci: usize = 0;
    while ci < n
        invariant
            tree.wf(),
            all_values_unset(tree.nodes@),
            n == tree.nodes@.len(),
            model == tree.nodes.deep_view(),
            done@.len() == n,
            ci <= n,
            done@ == settle(model, dinit, n as nat),
            forall|j: int| 0 <= j < ci ==> (#[trigger] done@[j]),
            forall|j: int, k: int|
                0 <= j < n && done@[j] && 0 <= k < tree.nodes@[j].bindings@.len() ==> done@[(
                #[trigger] tree.nodes@[j].bindings@[k]) as int] && rank[tree.nodes@[j].bindings@[k] as int]
                    < rank[j],
        decreases n - ci,
    {
        if !done[ci] {
            proof {
                assert(model.len() == n);
                assert(settle(model, no_marks(model.len()), model.len())[ci as int] == false);
                assert(!all_settled(model));
                assert(parse_spec(s) == Err::<Seq<NodeModel>, Error>(Error::BindingCycle));
            }
            return Err(Error::BindingCycle);
        }
        ci += 1;
    }
    proof {
        assert(model.len() == n);
        assert(all_settled(model)) by {
            assert forall|j: int| 0 <= j < model.len() implies settle(
                model,
                no_marks(model.len()),
                model.len(),
            )[j] by {
                assert(done@[j]);
            }
        }
        assert(parse_spec(s) == Ok::<Seq<NodeModel>, Error>(model));
        assert(respects_rank(tree.nodes@, rank));
    }
    Ok(tree)
}

} // verus!
