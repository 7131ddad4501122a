//! The dependency graph of source files and its topological ordering.

use vstd::prelude::*;
use vstd::hash_map::StringHashMap;
use crate::text::{clone_strings, lemma_push_new_key, str_views};

verus! {

/// One source file: its leaf name, where it lies, the dependencies its
/// header declares and the classes it uses without declaring them.
#[derive(Debug, Clone)]
pub struct Node {
    pub name: String,
    pub path: String,
    pub deps: Vec<String>,
    pub implicit_deps: Vec<String>,
}

/// A node as plain sequences of characters.
pub struct NodeView {
    pub name: Seq<char>,
    pub path: Seq<char>,
    pub deps: Seq<Seq<char>>,
    pub implicit_deps: Seq<Seq<char>>,
}

impl View for Node {
    type V = NodeView;

    open spec fn view(&self) -> NodeView {
        NodeView {
            name: self.name@,
            path: self.path@,
            deps: str_views(self.deps@),
            implicit_deps: str_views(self.implicit_deps@),
        }
    }
}

impl Node {
    /// A copy of the node.
    pub fn duplicate(&self) -> (r: Node)
        ensures
            r@ == self@,
    {
        Node {
            name: self.name.clone(),
            path: self.path.clone(),
            deps: clone_strings(&self.deps),
            implicit_deps: clone_strings(&self.implicit_deps),
        }
    }
}

/// A mapping from leaf file name to node. `names` lists the keys, each
/// once, in the order in which they were first entered.
pub struct Graph {
    pub names: Vec<String>,
    pub nodes: StringHashMap<Node>,
}

impl Graph {
    /// `names` lists the keys of `nodes`, each once.
    pub open spec fn wf(&self) -> bool {
        &&& str_views(self.names@).no_duplicates()
        &&& str_views(self.names@).to_set() == self.nodes@.dom()
    }

    /// The graph has a node under `name`.
    pub open spec fn contains(&self, name: Seq<char>) -> bool {
        self.nodes@.contains_key(name)
    }

    /// The declared dependencies of the node under `name`.
    pub open spec fn deps_of(&self, name: Seq<char>) -> Seq<Seq<char>> {
        str_views(self.nodes@[name].deps@)
    }

    /// The graph without nodes.
    pub fn new() -> (g: Graph)
        ensures
            g.wf(),
            g.nodes@ == Map::<Seq<char>, Node>::empty(),
            g.names@.len() == 0,
    {
        let g = Graph { names: Vec::new(), nodes: StringHashMap::new() };
        assert(str_views(g.names@).to_set() =~= g.nodes@.dom());
        g
    }

    /// Enters `node` under `name`, replacing the node that was there.
    pub fn insert(&mut self, name: String, node: Node)
        requires
            old(self).wf(),
        ensures
            final(self).wf(),
            final(self).nodes@ == old(self).nodes@.insert(name@, node),
            str_views(final(self).names@) == if old(self).contains(name@) {
                str_views(old(self).names@)
            } else {
                str_views(old(self).names@).push(name@)
            },
    {
        if !self.nodes.contains_key(name.as_str()) {
            let key = name.clone();
            proof {
                lemma_push_new_key(self.names@, key, self.nodes@.dom());
                assert(str_views(self.names@.push(key)) == str_views(self.names@).push(key@));
            }
            self.names.push(key);
        }
        self.nodes.insert(name, node);
        assert(str_views(self.names@).to_set() =~= self.nodes@.dom());
    }

    /// The node under `name`.
    pub fn get(&self, name: &str) -> (r: Option<&Node>)
        ensures
            match r {
                Some(node) => self.contains(name@) && *node == self.nodes@[name@],
                None => !self.contains(name@),
            },
    {
        self.nodes.get(name)
    }

    /// Whether the graph has a node under `name`.
    pub fn contains_key(&self, name: &str) -> (r: bool)
        ensures
            r == self.contains(name@),
    {
        self.nodes.contains_key(name)
    }

    /// The number of keys listed.
    pub fn len(&self) -> (r: usize)
        ensures
            r == self.names@.len(),
    {
        self.names.len()
    }
}

/// The node under `a` declares the dependency `b`.
pub open spec fn has_edge(g: Graph, a: Seq<char>, b: Seq<char>) -> bool {
    g.contains(a) && g.deps_of(a).contains(b)
}

/// Each entry of `p` but the last declares the next as a dependency.
pub open spec fn is_walk(g: Graph, p: Seq<Seq<char>>) -> bool {
    p.len() >= 1 && forall|i: int| 0 <= i < p.len() - 1 ==> has_edge(g, #[trigger] p[i], p[i + 1])
}

/// `p` leads from `n` along at least one edge back to `n`.
pub open spec fn is_cycle_through(g: Graph, n: Seq<char>, p: Seq<Seq<char>>) -> bool {
    is_walk(g, p) && p.len() >= 2 && p[0] == n && p.last() == n
}

/// `n` lies on a directed cycle.
pub open spec fn on_cycle(g: Graph, n: Seq<char>) -> bool {
    exists|p: Seq<Seq<char>>| is_cycle_through(g, n, p)
}

/// The graph has a directed cycle.
pub open spec fn has_cycle(g: Graph) -> bool {
    exists|n: Seq<char>| on_cycle(g, n)
}

/// `order` lists the keys of the graph, each once and each after all the
/// nodes that its node declares as dependencies. A declared dependency that
/// is no node of the graph has no place in it.
pub open spec fn is_topological(g: Graph, order: Seq<Seq<char>>) -> bool {
    &&& order.no_duplicates()
    &&& forall|n: Seq<char>| order.contains(n) <==> g.contains(n)
    &&& forall|i: int, j: int|
        0 <= i < order.len() && 0 <= j < order.len() && has_edge(g, order[i], order[j]) ==> j < i
}

/// The text of the failure that names `n` as lying on a cycle.
pub open spec fn cycle_message(n: Seq<char>) -> Seq<char> {
    "Circular dependency detected involving: "@ + n
}

/// `msg` is the failure text for some node that lies on a cycle.
pub open spec fn reports_cycle(g: Graph, msg: Seq<char>) -> bool {
    exists|n: Seq<char>| on_cycle(g, n) && msg == cycle_message(n)
}

/// What holds between two steps of the depth-first traversal: `result`
/// lists the finished nodes, each after those of its dependencies that are
/// nodes, and `stack` is the chain of unfinished nodes that leads to the one
/// at hand.
pub open spec fn sort_invariant(
    g: Graph,
    visited: Set<Seq<char>>,
    stack: Seq<Seq<char>>,
    result: Seq<Seq<char>>,
) -> bool {
    &&& result.no_duplicates()
    &&& forall|n: Seq<char>| result.contains(n) <==> visited.contains(n)
    &&& forall|i: int, d: Seq<char>|
        0 <= i < result.len() && #[trigger] has_edge(g, result[i], d) && g.contains(d)
            ==> exists|j: int| 0 <= j < i && result[j] == d
    &&& forall|i: int| 0 <= i < result.len() ==> g.contains(#[trigger] result[i])
    &&& stack.no_duplicates()
    &&& forall|i: int|
        0 <= i < stack.len() ==> g.contains(#[trigger] stack[i]) && !visited.contains(stack[i])
    &&& forall|i: int| 0 <= i < stack.len() - 1 ==> has_edge(g, #[trigger] stack[i], stack[i + 1])
}

/// A chain of distinct nodes is no longer than the list of keys.
proof fn lemma_stack_bounded(g: Graph, stack: Seq<Seq<char>>)
    requires
        g.wf(),
        stack.no_duplicates(),
        forall|i: int| 0 <= i < stack.len() ==> g.contains(#[trigger] stack[i]),
    ensures
        stack.len() <= g.names@.len(),
{
    let keys = str_views(g.names@);
    stack.unique_seq_to_set();
    keys.unique_seq_to_set();
    vstd::seq_lib::seq_to_set_is_finite(keys);
    assert(stack.to_set().subset_of(keys.to_set())) by {
        assert forall|n: Seq<char>| stack.to_set().contains(n) implies keys.to_set().contains(
            n,
        ) by {
            let i = choose|i: int| 0 <= i < stack.len() && stack[i] == n;
            assert(g.contains(stack[i]));
        }
    }
    vstd::set_lib::lemma_len_subset(stack.to_set(), keys.to_set());
}

/// Coming back to a node of the chain closes a cycle through it.
proof fn lemma_reentry_is_cycle(g: Graph, stack: Seq<Seq<char>>, n: Seq<char>)
    requires
        stack.contains(n),
        forall|i: int| 0 <= i < stack.len() - 1 ==> has_edge(g, #[trigger] stack[i], stack[i + 1]),
        has_edge(g, stack.last(), n),
    ensures
        on_cycle(g, n),
{
    let k = choose|k: int| 0 <= k < stack.len() && stack[k] == n;
    let p = stack.skip(k).push(n);
    assert forall|i: int| 0 <= i < p.len() - 1 implies has_edge(g, #[trigger] p[i], p[i + 1]) by {
        assert(p[i] == stack[k + i]);
        if i + 1 < p.len() - 1 {
            assert(p[i + 1] == stack[k + i + 1]);
        }
    }
    assert(is_cycle_through(g, n, p));
}

/// Entering a node that is neither finished nor on the chain extends the chain.
proof fn lemma_enter_node(
    g: Graph,
    visited: Set<Seq<char>>,
    stack: Seq<Seq<char>>,
    result: Seq<Seq<char>>,
    n: Seq<char>,
)
    requires
        sort_invariant(g, visited, stack, result),
        !stack.contains(n),
        !visited.contains(n),
        g.contains(n),
        stack.len() > 0 ==> has_edge(g, stack.last(), n),
    ensures
        sort_invariant(g, visited, stack.push(n), result),
{
    let inner = stack.push(n);
    assert forall|i: int, j: int| 0 <= i < inner.len() && 0 <= j < inner.len() && i
        != j implies inner[i] != inner[j] by {
        if i < stack.len() {
            assert(stack.contains(stack[i]));
        }
        if j < stack.len() {
            assert(stack.contains(stack[j]));
        }
    }
    assert forall|i: int| 0 <= i < inner.len() - 1 implies has_edge(
        g,
        #[trigger] inner[i],
        inner[i + 1],
    ) by {
        if i < stack.len() - 1 {
            assert(inner[i] == stack[i]);
            assert(inner[i + 1] == stack[i + 1]);
        }
    }
}

/// Leaving out the last node of the chain keeps the invariant.
proof fn lemma_leave_node(
    g: Graph,
    visited: Set<Seq<char>>,
    stack: Seq<Seq<char>>,
    result: Seq<Seq<char>>,
    n: Seq<char>,
)
    requires
        sort_invariant(g, visited, stack.push(n), result),
    ensures
        sort_invariant(g, visited, stack, result),
        !visited.contains(n),
        !stack.contains(n),
{
    let inner = stack.push(n);
    assert(inner[stack.len() as int] == n);
    assert forall|i: int, j: int| 0 <= i < stack.len() && 0 <= j < stack.len() && i
        != j implies stack[i] != stack[j] by {
        assert(inner[i] == stack[i]);
        assert(inner[j] == stack[j]);
    }
    assert forall|i: int| 0 <= i < stack.len() implies g.contains(#[trigger] stack[i])
        && !visited.contains(stack[i]) by {
        assert(inner[i] == stack[i]);
    }
    assert forall|i: int| 0 <= i < stack.len() - 1 implies has_edge(
        g,
        #[trigger] stack[i],
        stack[i + 1],
    ) by {
        assert(inner[i] == stack[i]);
        assert(inner[i + 1] == stack[i + 1]);
    }
    if stack.contains(n) {
        let k = choose|k: int| 0 <= k < stack.len() && stack[k] == n;
        assert(inner[k] == n);
    }
}

/// A node all of whose dependencies are finished is finished next.
proof fn lemma_finish_node(
    g: Graph,
    visited: Set<Seq<char>>,
    stack: Seq<Seq<char>>,
    result: Seq<Seq<char>>,
    n: Seq<char>,
)
    requires
        sort_invariant(g, visited, stack, result),
        !visited.contains(n),
        !stack.contains(n),
        g.contains(n),
        forall|d: Seq<char>| has_edge(g, n, d) && g.contains(d) ==> visited.contains(d),
    ensures
        sort_invariant(g, visited.insert(n), stack, result.push(n)),
{
    let after = result.push(n);
    let seen = visited.insert(n);
    assert forall|i: int, j: int| 0 <= i < after.len() && 0 <= j < after.len() && i
        != j implies after[i] != after[j] by {
        if i < result.len() {
            assert(result.contains(result[i]));
        }
        if j < result.len() {
            assert(result.contains(result[j]));
        }
    }
    assert forall|m: Seq<char>| after.contains(m) <==> seen.contains(m) by {
        if after.contains(m) {
            let i = choose|i: int| 0 <= i < after.len() && after[i] == m;
            if i < result.len() {
                assert(result.contains(result[i]));
            }
        }
        if seen.contains(m) {
            if m == n {
                assert(after[result.len() as int] == n);
            } else {
                assert(result.contains(m));
                let i = choose|i: int| 0 <= i < result.len() && result[i] == m;
                assert(after[i] == m);
            }
        }
    }
    assert forall|i: int, d: Seq<char>|
        0 <= i < after.len() && #[trigger] has_edge(g, after[i], d) && g.contains(
            d,
        ) implies exists|j: int| 0 <= j < i && after[j] == d by {
        if i < result.len() {
            assert(after[i] == result[i]);
            let j = choose|j: int| 0 <= j < i && result[j] == d;
            assert(after[j] == d);
        } else {
            assert(visited.contains(d));
            assert(result.contains(d));
            let j = choose|j: int| 0 <= j < result.len() && result[j] == d;
            assert(after[j] == d);
        }
    }
    assert forall|i: int| 0 <= i < after.len() implies g.contains(#[trigger] after[i]) by {
        if i < result.len() {
            assert(after[i] == result[i]);
        }
    }
    assert forall|i: int| 0 <= i < stack.len() implies g.contains(#[trigger] stack[i])
        && !seen.contains(stack[i]) by {
        assert(stack.contains(stack[i]));
    }
}

/// Along a walk through an ordered graph the position in the order falls
/// with every edge.
proof fn lemma_walk_descends(g: Graph, order: Seq<Seq<char>>, p: Seq<Seq<char>>, k: int)
    requires
        is_topological(g, order),
        is_walk(g, p),
        0 <= k < p.len(),
        p.len() >= 2,
        g.contains(p.last()),
    ensures
        order.contains(p[k]),
        order.contains(p[0]),
        order.index_of(p[k]) + k <= order.index_of(p[0]),
    decreases k,
{
    assert(has_edge(g, p[0], p[1]));
    assert(g.contains(p[0]));
    if k > 0 {
        lemma_walk_descends(g, order, p, k - 1);
        assert(has_edge(g, p[k - 1], p[k]));
        if k < p.len() - 1 {
            assert(has_edge(g, p[k], p[k + 1]));
        }
        assert(g.contains(p[k]));
        let i = order.index_of(p[k - 1]);
        let j = order.index_of(p[k]);
        assert(has_edge(g, order[i], order[j]));
    }
}

/// A graph that has a topological order has no cycle.
pub proof fn lemma_ordered_graph_is_acyclic(g: Graph, order: Seq<Seq<char>>)
    requires
        is_topological(g, order),
    ensures
        !has_cycle(g),
{
    if has_cycle(g) {
        let n = choose|n: Seq<char>| on_cycle(g, n);
        let p = choose|p: Seq<Seq<char>>| is_cycle_through(g, n, p);
        assert(has_edge(g, p[0], p[1]));
        lemma_walk_descends(g, order, p, p.len() - 1);
    }
}

/// Once every node is finished and the chain is empty, the finished list
/// is a topological order.
proof fn lemma_finished_is_topological(g: Graph, visited: Set<Seq<char>>, result: Seq<Seq<char>>)
    requires
        sort_invariant(g, visited, Seq::empty(), result),
        forall|n: Seq<char>| g.contains(n) ==> visited.contains(n),
    ensures
        is_topological(g, result),
{
    assert forall|n: Seq<char>| result.contains(n) <==> g.contains(n) by {
        if result.contains(n) {
            let i = choose|i: int| 0 <= i < result.len() && result[i] == n;
            assert(g.contains(result[i]));
        }
    }
    assert forall|i: int, j: int|
        0 <= i < result.len() && 0 <= j < result.len() && has_edge(
            g,
            result[i],
            result[j],
        ) implies j < i by {
        let k = choose|k: int| 0 <= k < i && result[k] == result[j];
        assert(k == j);
    }
}

/// How far a depth-first traversal has come: the node at which it came
/// back to the chain, if it did; the names that are finished; and those
/// names in the order in which they were finished.
pub struct Traversal {
    pub cycle: Option<Seq<char>>,
    pub done: Set<Seq<char>>,
    pub order: Seq<Seq<char>>,
}

/// The traversal `t` continued by a visit of `n`, reached along the chain
/// `stack`. A name that is no node of the graph is passed over; a node on
/// the chain ends the traversal; a finished node changes nothing; any other
/// node is finished after the dependencies that it declares, in declared
/// order. `fuel` bounds the depth of the descent.
pub open spec fn visited_from(
    g: Graph,
    n: Seq<char>,
    stack: Seq<Seq<char>>,
    t: Traversal,
    fuel: nat,
) -> Traversal
    decreases fuel, 0nat, 0nat,
{
    if !g.contains(n) {
        t
    } else if stack.contains(n) {
        Traversal { cycle: Some(n), ..t }
    } else if t.done.contains(n) || fuel == 0 {
        t
    } else {
        let below = visited_deps(g, g.deps_of(n), 0, stack.push(n), t, (fuel - 1) as nat);
        if below.cycle is Some {
            below
        } else {
            Traversal { cycle: None, done: below.done.insert(n), order: below.order.push(n) }
        }
    }
}

/// The traversal `t` continued by visits of `deps[i]`, `deps[i + 1]` and
/// so on, up to the first that ends it.
pub open spec fn visited_deps(
    g: Graph,
    deps: Seq<Seq<char>>,
    i: int,
    stack: Seq<Seq<char>>,
    t: Traversal,
    fuel: nat,
) -> Traversal
    decreases fuel, 1nat, deps.len() - i,
{
    if i < 0 || i >= deps.len() {
        t
    } else {
        let after = visited_from(g, deps[i], stack, t, fuel);
        if after.cycle is Some {
            after
        } else {
            visited_deps(g, deps, i + 1, stack, after, fuel)
        }
    }
}

/// The traversal after visits of the first `k` of `names`, each from an
/// empty chain, up to the first that ends it.
pub open spec fn sorted_upto(g: Graph, names: Seq<Seq<char>>, k: int) -> Traversal
    decreases k,
{
    if k <= 0 {
        Traversal { cycle: None, done: Set::empty(), order: Seq::empty() }
    } else {
        let before = sorted_upto(g, names, k - 1);
        if before.cycle is Some {
            before
        } else {
            visited_from(g, names[k - 1], Seq::empty(), before, names.len() + 1)
        }
    }
}

/// The depth-first traversal of the whole graph, its keys taken in the
/// order of `names`.
pub open spec fn depth_first(g: Graph) -> Traversal {
    sorted_upto(g, str_views(g.names@), g.names@.len() as int)
}

/// The traversal that has finished the names of `result` and met no cycle.
pub open spec fn progress(done: Set<Seq<char>>, result: Seq<String>) -> Traversal {
    Traversal { cycle: None, done, order: str_views(result) }
}

/// Once a traversal has met a cycle, it stays as it is.
proof fn lemma_cycle_stays(g: Graph, names: Seq<Seq<char>>, k: int, n: int)
    requires
        0 < k <= n,
        sorted_upto(g, names, k).cycle is Some,
    ensures
        sorted_upto(g, names, n) == sorted_upto(g, names, k),
    decreases n - k,
{
    if k < n {
        lemma_cycle_stays(g, names, k, n - 1);
    }
}

/// The failure text that names `node_name`.
fn cycle_error(node_name: &str) -> (msg: String)
    ensures
        msg@ == cycle_message(node_name@),
{
    let mut v = crate::text::chars_of("Circular dependency detected involving: ");
    crate::text::append_str(&mut v, node_name);
    crate::text::string_of(&v)
}

/// Visits `node_name`, reached along the chain `stack`: passes over a
/// name that is no node, finishes a node after its dependencies, or fails at
/// the first node that lies on the chain.
fn visit(
    node_name: &str,
    graph: &Graph,
    visited: &mut StringHashMap<bool>,
    rec_stack: &mut StringHashMap<bool>,
    result: &mut Vec<String>,
    Ghost(stack): Ghost<Seq<Seq<char>>>,
    Ghost(fuel): Ghost<nat>,
) -> (r: Result<(), String>)
    requires
        graph.wf(),
        sort_invariant(*graph, old(visited)@.dom(), stack, str_views(old(result)@)),
        old(rec_stack)@.dom() == stack.to_set(),
        stack.len() > 0 ==> has_edge(*graph, stack.last(), node_name@),
        fuel + stack.len() > graph.names@.len(),
    ensures
        match r {
            Ok(()) => {
                &&& sort_invariant(*graph, final(visited)@.dom(), stack, str_views(final(result)@))
                &&& final(rec_stack)@.dom() == stack.to_set()
                &&& old(visited)@.dom().subset_of(final(visited)@.dom())
                &&& graph.contains(node_name@) ==> final(visited)@.dom().contains(node_name@)
                &&& visited_from(
                    *graph,
                    node_name@,
                    stack,
                    progress(old(visited)@.dom(), old(result)@),
                    fuel,
                ) == progress(final(visited)@.dom(), final(result)@)
            },
            Err(msg) => {
                &&& reports_cycle(*graph, msg@)
                &&& visited_from(
                    *graph,
                    node_name@,
                    stack,
                    progress(old(visited)@.dom(), old(result)@),
                    fuel,
                ).cycle matches Some(c) && msg@ == cycle_message(c)
            },
        },
    decreases graph.names@.len() - stack.len(),
{
    let ghost start = progress(visited@.dom(), result@);
    proof {
        assert(stack.to_set().contains(node_name@) == stack.contains(node_name@));
        lemma_stack_bounded(*graph, stack);
    }
    let node = match graph.nodes.get(node_name) {
        Some(node) => node,
        None => {
            return Ok(());
        },
    };
    if rec_stack.contains_key(node_name) {
        proof {
            lemma_reentry_is_cycle(*graph, stack, node_name@);
        }
        return Err(cycle_error(node_name));
    }
    if visited.contains_key(node_name) {
        return Ok(());
    }
    rec_stack.insert(node_name.to_owned(), true);
    let ghost inner = stack.push(node_name@);
    assert(inner.to_set() =~= stack.to_set().insert(node_name@)) by {
        assert forall|m: Seq<char>| inner.to_set().contains(m) <==> stack.to_set().insert(
            node_name@,
        ).contains(m) by {
            if inner.to_set().contains(m) {
                let i = choose|i: int| 0 <= i < inner.len() && inner[i] == m;
                if i < stack.len() {
                    assert(stack[i] == m);
                }
            }
            if stack.to_set().contains(m) {
                let i = choose|i: int| 0 <= i < stack.len() && stack[i] == m;
                assert(inner[i] == m);
            }
            if m == node_name@ {
                assert(inner[stack.len() as int] == m);
            }
        }
    }
    proof {
        lemma_enter_node(
            *graph,
            visited@.dom(),
            stack,
            str_views(result@),
            node_name@,
        );
        lemma_stack_bounded(*graph, inner);
    }
    let mut i: usize = 0;
    while i < node.deps.len()
        invariant
            i <= node.deps@.len(),
            graph.wf(),
            graph.contains(node_name@),
            *node == graph.nodes@[node_name@],
            inner == stack.push(node_name@),
            inner.len() <= graph.names@.len(),
            sort_invariant(*graph, visited@.dom(), inner, str_views(result@)),
            rec_stack@.dom() == inner.to_set(),
            old(visited)@.dom().subset_of(visited@.dom()),
            forall|j: int|
                0 <= j < i && graph.contains(#[trigger] node.deps@[j]@) ==> visited@.dom().contains(
                    node.deps@[j]@,
                ),
            fuel + stack.len() > graph.names@.len(),
            fuel > 0,
            !stack.contains(node_name@),
            !start.done.contains(node_name@),
            start == progress(old(visited)@.dom(), old(result)@),
            visited_deps(
                *graph,
                str_views(node.deps@),
                0,
                inner,
                start,
                (fuel - 1) as nat,
            ) == visited_deps(
                *graph,
                str_views(node.deps@),
                i as int,
                inner,
                progress(visited@.dom(), result@),
                (fuel - 1) as nat,
            ),
        decreases node.deps@.len() - i,
    {
        let dep = node.deps[i].as_str();
        proof {
            assert(str_views(node.deps@)[i as int] == dep@);
            assert(has_edge(*graph, node_name@, dep@));
            assert(inner.last() == node_name@);
        }
        let ghost cur = progress(visited@.dom(), result@);
        match visit(
            dep,
            graph,
            visited,
            rec_stack,
            result,
            Ghost(inner),
            Ghost((fuel - 1) as nat),
        ) {
            Err(e) => {
                proof {
                    let after = visited_from(*graph, dep@, inner, cur, (fuel - 1) as nat);
                    assert(visited_deps(
                        *graph,
                        str_views(node.deps@),
                        i as int,
                        inner,
                        cur,
                        (fuel - 1) as nat,
                    ) == after);
                    assert(!stack.contains(node_name@));
                    assert(!start.done.contains(node_name@));
                    assert(visited_from(*graph, node_name@, stack, start, fuel) == after);
                }
                return Err(e);
            },
            Ok(()) => {},
        }
        i += 1;
    }
    proof {
        lemma_leave_node(*graph, visited@.dom(), stack, str_views(result@), node_name@);
        assert forall|d: Seq<char>|
            has_edge(*graph, node_name@, d) && graph.contains(d) implies visited@.dom().contains(
            d,
        ) by {
            let j = choose|j: int|
                0 <= j < str_views(node.deps@).len() && str_views(node.deps@)[j] == d;
            assert(node.deps@[j]@ == d);
        }
    }
    rec_stack.remove(node_name);
    assert(rec_stack@.dom() =~= stack.to_set());
    let done = node_name.to_owned();
    let ghost below = progress(visited@.dom(), result@);
    proof {
        lemma_finish_node(*graph, visited@.dom(), stack, str_views(result@), node_name@);
        assert(str_views(result@.push(done)) == str_views(result@).push(node_name@));
        assert(fuel > 0);
        assert(below == visited_deps(
            *graph,
            graph.deps_of(node_name@),
            0,
            stack.push(node_name@),
            start,
            (fuel - 1) as nat,
        ));
    }
    visited.insert(node_name.to_owned(), true);
    result.push(done);
    proof {
        assert(visited@.dom() =~= below.done.insert(node_name@));
    }
    Ok(())
}

/// Orders the graph so that every node follows the nodes that it declares
/// as dependencies. The order lists the keys of the graph, each once; a
/// declared dependency that is no node of the graph is passed over. A graph
/// with a directed cycle has no such order: the failure names the node at
/// which the traversal came back to its own chain.
pub fn topo_sort(graph: &Graph) -> (r: Result<Vec<String>, String>)
    requires
        graph.wf(),
    ensures
        match r {
            Ok(order) => {
                &&& is_topological(*graph, str_views(order@))
                &&& !has_cycle(*graph)
                &&& depth_first(*graph).cycle is None
                &&& str_views(order@) == depth_first(*graph).order
            },
            Err(msg) => {
                &&& reports_cycle(*graph, msg@)
                &&& has_cycle(*graph)
                &&& depth_first(*graph).cycle matches Some(c) && msg@ == cycle_message(c)
            },
        },
{
    let mut result: Vec<String> = Vec::new();
    let mut visited: StringHashMap<bool> = StringHashMap::new();
    let mut rec_stack: StringHashMap<bool> = StringHashMap::new();
    let ghost empty = Seq::<Seq<char>>::empty();
    assert(rec_stack@.dom() =~= empty.to_set());
    let mut i: usize = 0;
    assert(visited@.dom() =~= Set::<Seq<char>>::empty());
    assert(str_views(result@) =~= Seq::<Seq<char>>::empty());
    while i < graph.names.len()
        invariant
            i <= graph.names@.len(),
            graph.wf(),
            empty == Seq::<Seq<char>>::empty(),
            sort_invariant(*graph, visited@.dom(), empty, str_views(result@)),
            rec_stack@.dom() == empty.to_set(),
            forall|j: int| 0 <= j < i ==> visited@.dom().contains(#[trigger] graph.names@[j]@),
            sorted_upto(*graph, str_views(graph.names@), i as int) == progress(
                visited@.dom(),
                result@,
            ),
        decreases graph.names@.len() - i,
    {
        let name = graph.names[i].as_str();
        proof {
            assert(str_views(graph.names@)[i as int] == name@);
            assert(str_views(graph.names@).to_set().contains(name@));
        }
        let ghost fuel = (graph.names@.len() + 1) as nat;
        match visit(
            name,
            graph,
            &mut visited,
            &mut rec_stack,
            &mut result,
            Ghost(empty),
            Ghost(fuel),
        ) {
            Err(e) => {
                proof {
                    let n = choose|n: Seq<char>| on_cycle(*graph, n) && e@ == cycle_message(n);
                    assert(on_cycle(*graph, n));
                    lemma_cycle_stays(*graph, str_views(graph.names@), i + 1, graph.names@.len() as int);
                }
                return Err(e);
            },
            Ok(()) => {},
        }
        i += 1;
    }
    proof {
        assert forall|n: Seq<char>| graph.contains(n) implies visited@.dom().contains(n) by {
            assert(str_views(graph.names@).to_set().contains(n));
            let j = choose|j: int|
                0 <= j < str_views(graph.names@).len() && str_views(graph.names@)[j] == n;
            assert(graph.names@[j]@ == n);
        }
        lemma_finished_is_topological(*graph, visited@.dom(), str_views(result@));
        lemma_ordered_graph_is_acyclic(*graph, str_views(result@));
    }
    Ok(result)
}

/// A node that declares itself as a dependency lies on a cycle, so a
/// graph with such a node has no topological order.
pub proof fn lemma_self_dependency_is_cycle(g: Graph, n: Seq<char>)
    requires
        has_edge(g, n, n),
    ensures
        on_cycle(g, n),
        has_cycle(g),
{
    let p = seq![n, n];
    assert(is_cycle_through(g, n, p));
    assert(on_cycle(g, n));
}

} // verus!
