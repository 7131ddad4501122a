//! The dependency tree of an entry file as a list of lines to show.

use vstd::prelude::*;
use vstd::hash_map::StringHashMap;
use crate::builder::{graph_view, source_name, source_name_of};
use crate::deps::holds_text;
use crate::graph::{Graph, NodeView};
use crate::text::str_views;

verus! {

/// One line of the tree. `depth` counts the levels below the root.
#[derive(Debug, PartialEq, Eq)]
pub enum TreeLine {
    /// The node the tree starts at.
    Root { name: String },
    /// A node below the root, shown for the first time.
    Dependency { depth: usize, name: String },
    /// A name that was shown before.
    Repeated { depth: usize, name: String },
    /// The file of a class that is used without being declared.
    Implicit { depth: usize, file: String },
}

/// A line of the tree as plain values.
pub enum TreeLineView {
    Root { name: Seq<char> },
    Dependency { depth: int, name: Seq<char> },
    Repeated { depth: int, name: Seq<char> },
    Implicit { depth: int, file: Seq<char> },
}

impl View for TreeLine {
    type V = TreeLineView;

    open spec fn view(&self) -> TreeLineView {
        match *self {
            TreeLine::Root { name } => TreeLineView::Root { name: name@ },
            TreeLine::Dependency { depth, name } => TreeLineView::Dependency {
                depth: depth as int,
                name: name@,
            },
            TreeLine::Repeated { depth, name } => TreeLineView::Repeated {
                depth: depth as int,
                name: name@,
            },
            TreeLine::Implicit { depth, file } => TreeLineView::Implicit {
                depth: depth as int,
                file: file@,
            },
        }
    }
}

/// A list of tree lines as plain values.
pub open spec fn line_views(lines: Seq<TreeLine>) -> Seq<TreeLineView> {
    Seq::new(lines.len(), |i: int| lines[i]@)
}

/// The names shown so far and the lines written so far.
pub struct TreeState {
    pub shown: Set<Seq<char>>,
    pub lines: Seq<TreeLineView>,
}

/// The names shown and the lines written, as plain values.
pub open spec fn tree_state(shown: Set<Seq<char>>, lines: Seq<TreeLine>) -> TreeState {
    TreeState { shown, lines: line_views(lines) }
}

/// A depth as the lines carry it: no greater than the greatest `usize`.
pub open spec fn capped(depth: int) -> int {
    if depth > usize::MAX {
        usize::MAX as int
    } else {
        depth
    }
}

/// The line for a node that is shown for the first time.
pub open spec fn node_line(depth: int, name: Seq<char>) -> TreeLineView {
    if depth == 0 {
        TreeLineView::Root { name }
    } else {
        TreeLineView::Dependency { depth: capped(depth), name }
    }
}

/// The tree `t` continued by the subtree of `root` at `depth`: a name
/// shown before is only repeated; a node is followed by the subtrees of its
/// declared dependencies and then by its implicit ones. `fuel` bounds the
/// depth of the descent.
pub open spec fn tree_from(
    g: Map<Seq<char>, NodeView>,
    root: Seq<char>,
    depth: int,
    t: TreeState,
    fuel: nat,
) -> TreeState
    decreases fuel, 0nat, 0nat,
{
    if t.shown.contains(root) {
        TreeState {
            lines: t.lines.push(TreeLineView::Repeated { depth: capped(depth), name: root }),
            ..t
        }
    } else if !g.contains_key(root) || fuel == 0 {
        TreeState { shown: t.shown.insert(root), ..t }
    } else {
        let node = g[root];
        let head = TreeState {
            shown: t.shown.insert(root),
            lines: t.lines.push(node_line(depth, node.name)),
        };
        let below = tree_deps(g, node.deps, 0, depth + 1, head, (fuel - 1) as nat);
        tree_implicit(g, node, 0, depth + 1, below, (fuel - 1) as nat)
    }
}

/// The tree `t` continued by the subtrees of `deps[i]`, `deps[i + 1]` and so on.
pub open spec fn tree_deps(
    g: Map<Seq<char>, NodeView>,
    deps: Seq<Seq<char>>,
    i: int,
    depth: int,
    t: TreeState,
    fuel: nat,
) -> TreeState
    decreases fuel, 1nat, deps.len() - i,
{
    if i < 0 || i >= deps.len() {
        t
    } else {
        tree_deps(g, deps, i + 1, depth, tree_from(g, deps[i], depth, t, fuel), fuel)
    }
}

/// The tree `t` continued by the implicit dependencies of `node` from
/// the `i`-th on: each that is not among the declared ones gets a line, and
/// below it its subtree where the graph has its file.
pub open spec fn tree_implicit(
    g: Map<Seq<char>, NodeView>,
    node: NodeView,
    i: int,
    depth: int,
    t: TreeState,
    fuel: nat,
) -> TreeState
    decreases fuel, 1nat, node.implicit_deps.len() - i,
{
    if i < 0 || i >= node.implicit_deps.len() {
        t
    } else {
        let file = source_name_of(node.implicit_deps[i]);
        if node.deps.contains(file) {
            tree_implicit(g, node, i + 1, depth, t, fuel)
        } else {
            let marked = TreeState {
                lines: t.lines.push(TreeLineView::Implicit { depth: capped(depth), file }),
                ..t
            };
            let below = if g.contains_key(file) {
                tree_from(g, file, depth + 1, marked, fuel)
            } else {
                marked
            };
            tree_implicit(g, node, i + 1, depth, below, fuel)
        }
    }
}

/// The lines of the tree of `root`.
pub open spec fn tree_of(g: Graph, root: Seq<char>) -> Seq<TreeLineView> {
    tree_from(
        graph_view(g),
        root,
        0,
        TreeState { shown: Set::empty(), lines: Seq::empty() },
        (g.names@.len() + 1) as nat,
    ).lines
}

/// What holds of the chain of nodes whose subtrees are being written:
/// they are different nodes of the graph, all shown.
pub open spec fn chain_ok(g: Graph, chain: Seq<Seq<char>>, shown: Set<Seq<char>>) -> bool {
    &&& chain.no_duplicates()
    &&& forall|i: int| 0 <= i < chain.len() ==> g.contains(#[trigger] chain[i]) && shown.contains(
        chain[i],
    )
}

/// A chain of different nodes is no longer than the list of keys.
proof fn lemma_chain_bounded(g: Graph, chain: Seq<Seq<char>>, shown: Set<Seq<char>>)
    requires
        g.wf(),
        chain_ok(g, chain, shown),
    ensures
        chain.len() <= g.names@.len(),
{
    let keys = str_views(g.names@);
    chain.unique_seq_to_set();
    keys.unique_seq_to_set();
    vstd::seq_lib::seq_to_set_is_finite(keys);
    assert(chain.to_set().subset_of(keys.to_set())) by {
        assert forall|n: Seq<char>| chain.to_set().contains(n) implies keys.to_set().contains(n) by {
            let i = choose|i: int| 0 <= i < chain.len() && chain[i] == n;
            assert(g.contains(chain[i]));
        }
    }
    vstd::set_lib::lemma_len_subset(chain.to_set(), keys.to_set());
}

/// A node that was not shown extends the chain once it is shown.
proof fn lemma_chain_grows(g: Graph, chain: Seq<Seq<char>>, shown: Set<Seq<char>>, root: Seq<char>)
    requires
        chain_ok(g, chain, shown),
        g.contains(root),
        !shown.contains(root),
    ensures
        chain_ok(g, chain.push(root), shown.insert(root)),
{
    let longer = chain.push(root);
    assert forall|i: int, j: int| 0 <= i < longer.len() && 0 <= j < longer.len() && i
        != j implies longer[i] != longer[j] by {
        if i < chain.len() {
            assert(shown.contains(chain[i]));
        }
        if j < chain.len() {
            assert(shown.contains(chain[j]));
        }
    }
}

/// The chain stays valid while more names are shown.
proof fn lemma_chain_kept(g: Graph, chain: Seq<Seq<char>>, shown: Set<Seq<char>>, more: Set<Seq<char>>)
    requires
        chain_ok(g, chain, shown),
        shown.subset_of(more),
    ensures
        chain_ok(g, chain, more),
{
}

/// The depth one level further down, capped.
fn next_depth(depth: usize, Ghost(level): Ghost<int>) -> (r: usize)
    requires
        level >= 0,
        depth == capped(level),
    ensures
        r == capped(level + 1),
{
    if depth == usize::MAX {
        depth
    } else {
        depth + 1
    }
}

/// Writes the subtree of `root` at `depth`, below the chain of nodes
/// whose subtrees are being written.
fn write_subtree(
    graph: &Graph,
    root: &str,
    depth: usize,
    shown: &mut StringHashMap<bool>,
    lines: &mut Vec<TreeLine>,
    Ghost(level): Ghost<int>,
    Ghost(chain): Ghost<Seq<Seq<char>>>,
    Ghost(fuel): Ghost<nat>,
)
    requires
        graph.wf(),
        level >= 0,
        depth == capped(level),
        chain_ok(*graph, chain, old(shown)@.dom()),
        fuel + chain.len() > graph.names@.len(),
    ensures
        tree_state(final(shown)@.dom(), final(lines)@) == tree_from(
            graph_view(*graph),
            root@,
            level,
            tree_state(old(shown)@.dom(), old(lines)@),
            fuel,
        ),
        old(shown)@.dom().subset_of(final(shown)@.dom()),
    decreases graph.names@.len() - chain.len(),
{
    let ghost g = graph_view(*graph);
    let ghost start = tree_state(shown@.dom(), lines@);
    if shown.contains_key(root) {
        let line = TreeLine::Repeated { depth, name: root.to_owned() };
        assert(line_views(lines@.push(line)) =~= line_views(lines@).push(line@));
        lines.push(line);
        return ;
    }
    shown.insert(root.to_owned(), true);
    assert(shown@.dom() =~= start.shown.insert(root@));
    match graph.get(root) {
        None => {},
        Some(node) => {
            proof {
                lemma_chain_bounded(*graph, chain, start.shown);
                lemma_chain_grows(*graph, chain, start.shown, root@);
                lemma_chain_bounded(*graph, chain.push(root@), start.shown.insert(root@));
            }
            let ghost inner = chain.push(root@);
            let ghost less = (fuel - 1) as nat;
            let line = if depth == 0 {
                TreeLine::Root { name: node.name.clone() }
            } else {
                TreeLine::Dependency { depth, name: node.name.clone() }
            };
            assert(level == 0 <==> depth == 0);
            assert(line@ == node_line(level, node@.name));
            assert(line_views(lines@.push(line)) =~= line_views(lines@).push(line@));
            lines.push(line);
            let ghost head = tree_state(shown@.dom(), lines@);
            let below = next_depth(depth, Ghost(level));
            let mut i: usize = 0;
            while i < node.deps.len()
                invariant
                    i <= node.deps@.len(),
                    graph.wf(),
                    g == graph_view(*graph),
                    level >= 0,
                    below == capped(level + 1),
                    inner == chain.push(root@),
                    inner.len() <= graph.names@.len(),
                    less == (fuel - 1) as nat,
                    fuel > 0,
                    fuel + chain.len() > graph.names@.len(),
                    chain_ok(*graph, inner, shown@.dom()),
                    old(shown)@.dom().subset_of(shown@.dom()),
                    tree_deps(g, node@.deps, 0, level + 1, head, less) == tree_deps(
                        g,
                        node@.deps,
                        i as int,
                        level + 1,
                        tree_state(shown@.dom(), lines@),
                        less,
                    ),
                decreases node.deps@.len() - i,
            {
                let ghost before = shown@.dom();
                assert(node@.deps[i as int] == node.deps@[i as int]@);
                write_subtree(
                    graph,
                    node.deps[i].as_str(),
                    below,
                    shown,
                    lines,
                    Ghost(level + 1),
                    Ghost(inner),
                    Ghost(less),
                );
                proof {
                    lemma_chain_kept(*graph, inner, before, shown@.dom());
                }
                i += 1;
            }
            let ghost after_deps = tree_state(shown@.dom(), lines@);
            let deeper = next_depth(below, Ghost(level + 1));
            let mut k: usize = 0;
            while k < node.implicit_deps.len()
                invariant
                    k <= node.implicit_deps@.len(),
                    graph.wf(),
                    g == graph_view(*graph),
                    level >= 0,
                    below == capped(level + 1),
                    deeper == capped(level + 2),
                    inner == chain.push(root@),
                    inner.len() <= graph.names@.len(),
                    less == (fuel - 1) as nat,
                    fuel > 0,
                    fuel + chain.len() > graph.names@.len(),
                    chain_ok(*graph, inner, shown@.dom()),
                    old(shown)@.dom().subset_of(shown@.dom()),
                    tree_implicit(g, node@, 0, level + 1, after_deps, less) == tree_implicit(
                        g,
                        node@,
                        k as int,
                        level + 1,
                        tree_state(shown@.dom(), lines@),
                        less,
                    ),
                decreases node.implicit_deps@.len() - k,
            {
                assert(node@.implicit_deps[k as int] == node.implicit_deps@[k as int]@);
                let file = source_name(node.implicit_deps[k].as_str());
                if !holds_text(&node.deps, file.as_str()) {
                    let line = TreeLine::Implicit { depth: below, file: file.clone() };
                    assert(line_views(lines@.push(line)) =~= line_views(lines@).push(line@));
                    lines.push(line);
                    if graph.contains_key(file.as_str()) {
                        let ghost before = shown@.dom();
                        write_subtree(
                            graph,
                            file.as_str(),
                            deeper,
                            shown,
                            lines,
                            Ghost(level + 2),
                            Ghost(inner),
                            Ghost(less),
                        );
                        proof {
                            lemma_chain_kept(*graph, inner, before, shown@.dom());
                        }
                    }
                }
                k += 1;
            }
        },
    }
}

/// The lines of the dependency tree of `root`: every node once, with its
/// declared dependencies below it and then the implicit ones that are not
/// declared; a name that comes up again is only repeated.
pub fn tree_lines(graph: &Graph, root: &str) -> (r: Vec<TreeLine>)
    requires
        graph.wf(),
    ensures
        line_views(r@) == tree_of(*graph, root@),
{
    let mut shown: StringHashMap<bool> = StringHashMap::new();
    let mut lines: Vec<TreeLine> = Vec::new();
    assert(shown@.dom() =~= Set::<Seq<char>>::empty());
    assert(line_views(lines@) =~= Seq::<TreeLineView>::empty());
    write_subtree(
        graph,
        root,
        0,
        &mut shown,
        &mut lines,
        Ghost(0),
        Ghost(Seq::empty()),
        Ghost((graph.names@.len() + 1) as nat),
    );
    lines
}

} // verus!
