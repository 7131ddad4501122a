//! What one build does: which files go to the compiler, with which
//! arguments, and what the fingerprint store holds afterwards.

use vstd::prelude::*;
use crate::builder::{graph_view, keyed_by_name};
use crate::cache::{is_stale, needs_rebuild, Cache, CacheEntry};
use crate::graph::{Graph, Node, NodeView};
use crate::text::{str_views, with_key};

verus! {

/// What the driver saw of one source file before the build: whether its
/// artifact exists, and the fingerprint of its bytes.
#[derive(Debug)]
pub struct Observation {
    pub artifact_exists: bool,
    pub hash: String,
}

/// An observation as plain values.
pub struct ObservationView {
    pub artifact_exists: bool,
    pub hash: Seq<char>,
}

impl View for Observation {
    type V = ObservationView;

    open spec fn view(&self) -> ObservationView {
        ObservationView { artifact_exists: self.artifact_exists, hash: self.hash@ }
    }
}

/// A list of observations as plain values.
pub open spec fn observation_views(v: Seq<Observation>) -> Seq<ObservationView> {
    Seq::new(v.len(), |i: int| v[i]@)
}

/// A list of nodes as plain values.
pub open spec fn node_views(v: Seq<Node>) -> Seq<NodeView> {
    Seq::new(v.len(), |i: int| v[i]@)
}

/// The files to compile, in build order, and the number of files skipped.
pub struct BuildPlan {
    pub compile: Vec<Node>,
    pub skipped: usize,
}

/// The observation of the file at position `i` of the build order; of a
/// file that was not observed, that it has no artifact.
pub open spec fn observed_at(observed: Seq<ObservationView>, i: int) -> ObservationView {
    if 0 <= i < observed.len() {
        observed[i]
    } else {
        ObservationView { artifact_exists: false, hash: Seq::empty() }
    }
}

/// The file at position `i` of the build order is a node of the graph
/// and the staleness oracle asks for it.
pub open spec fn must_compile(
    nodes: Map<Seq<char>, NodeView>,
    cache: Map<Seq<char>, (Seq<char>, Seq<char>)>,
    order: Seq<Seq<char>>,
    observed: Seq<ObservationView>,
    force: bool,
    i: int,
) -> bool {
    nodes.contains_key(order[i]) && is_stale(
        force,
        observed_at(observed, i).artifact_exists,
        cache,
        nodes[order[i]].name,
        observed_at(observed, i).hash,
    )
}

/// The positions among the first `k` of the build order that are compiled.
pub open spec fn compiled_upto(
    nodes: Map<Seq<char>, NodeView>,
    cache: Map<Seq<char>, (Seq<char>, Seq<char>)>,
    order: Seq<Seq<char>>,
    observed: Seq<ObservationView>,
    force: bool,
    k: int,
) -> Seq<int>
    decreases k,
{
    if k <= 0 {
        Seq::empty()
    } else {
        let before = compiled_upto(nodes, cache, order, observed, force, k - 1);
        if must_compile(nodes, cache, order, observed, force, k - 1) {
            before.push(k - 1)
        } else {
            before
        }
    }
}

/// The number of nodes among the first `k` of the build order that are skipped.
pub open spec fn skipped_upto(
    nodes: Map<Seq<char>, NodeView>,
    cache: Map<Seq<char>, (Seq<char>, Seq<char>)>,
    order: Seq<Seq<char>>,
    observed: Seq<ObservationView>,
    force: bool,
    k: int,
) -> nat
    decreases k,
{
    if k <= 0 {
        0
    } else {
        let before = skipped_upto(nodes, cache, order, observed, force, k - 1);
        if nodes.contains_key(order[k - 1]) && !must_compile(
            nodes,
            cache,
            order,
            observed,
            force,
            k - 1,
        ) {
            before + 1
        } else {
            before
        }
    }
}

/// The nodes at the given positions of the build order.
pub open spec fn nodes_at(
    nodes: Map<Seq<char>, NodeView>,
    order: Seq<Seq<char>>,
    positions: Seq<int>,
) -> Seq<NodeView> {
    Seq::new(positions.len(), |j: int| nodes[order[positions[j]]])
}

/// Walks the build order and parts the nodes into those to compile and
/// those to skip. Names of the order that are no nodes are passed over.
/// `observed[i]` is what the driver saw of the file `order[i]`.
pub fn plan_build(
    graph: &Graph,
    order: &Vec<String>,
    cache: &Cache,
    observed: &Vec<Observation>,
    force: bool,
) -> (plan: BuildPlan)
    ensures
        node_views(plan.compile@) == nodes_at(
            graph_view(*graph),
            str_views(order@),
            compiled_upto(
                graph_view(*graph),
                cache@,
                str_views(order@),
                observation_views(observed@),
                force,
                order@.len() as int,
            ),
        ),
        plan.skipped == skipped_upto(
            graph_view(*graph),
            cache@,
            str_views(order@),
            observation_views(observed@),
            force,
            order@.len() as int,
        ),
{
    let ghost nodes = graph_view(*graph);
    let ghost names = str_views(order@);
    let ghost seen = observation_views(observed@);
    let mut compile: Vec<Node> = Vec::new();
    let mut skipped: usize = 0;
    let mut i: usize = 0;
    assert(node_views(compile@) =~= nodes_at(
        nodes,
        names,
        compiled_upto(nodes, cache@, names, seen, force, 0),
    ));
    while i < order.len()
        invariant
            i <= order.len(),
            nodes == graph_view(*graph),
            names == str_views(order@),
            seen == observation_views(observed@),
            skipped <= i,
            node_views(compile@) == nodes_at(
                nodes,
                names,
                compiled_upto(nodes, cache@, names, seen, force, i as int),
            ),
            skipped == skipped_upto(nodes, cache@, names, seen, force, i as int),
        decreases order.len() - i,
    {
        let ghost before = compiled_upto(nodes, cache@, names, seen, force, i as int);
        assert(names[i as int] == order@[i as int]@);
        match graph.get(order[i].as_str()) {
            Some(node) => {
                assert(nodes[names[i as int]] == node@);
                let stale = if i < observed.len() {
                    assert(observed_at(seen, i as int) == observed@[i as int]@);
                    needs_rebuild(
                        node,
                        cache,
                        observed[i].artifact_exists,
                        observed[i].hash.as_str(),
                        force,
                    )
                } else {
                    true
                };
                assert(stale == must_compile(nodes, cache@, names, seen, force, i as int));
                if stale {
                    let copy = node.duplicate();
                    assert(node_views(compile@.push(copy)) =~= node_views(compile@).push(copy@));
                    assert(nodes_at(nodes, names, before.push(i as int)) =~= nodes_at(
                        nodes,
                        names,
                        before,
                    ).push(nodes[names[i as int]]));
                    compile.push(copy);
                } else {
                    skipped = skipped + 1;
                }
            },
            None => {},
        }
        i += 1;
    }
    BuildPlan { compile, skipped }
}

/// The paths of the given nodes, in order.
pub open spec fn paths_of(nodes: Seq<NodeView>) -> Seq<Seq<char>> {
    Seq::new(nodes.len(), |i: int| nodes[i].path)
}

/// The arguments of the one compiler invocation of a build: the
/// output-directory flag, the output directory, and the paths of the files
/// to compile in build order.
pub open spec fn compiler_args_of(out_dir: Seq<char>, compile: Seq<NodeView>) -> Seq<Seq<char>> {
    seq!["-d"@, out_dir] + paths_of(compile)
}

/// The arguments with which the compiler is invoked once for the whole plan.
pub fn compiler_args(out_dir: &str, plan: &BuildPlan) -> (r: Vec<String>)
    ensures
        str_views(r@) == compiler_args_of(out_dir@, node_views(plan.compile@)),
{
    let mut r: Vec<String> = Vec::new();
    r.push("-d".to_owned());
    r.push(out_dir.to_owned());
    let ghost head = seq!["-d"@, out_dir@];
    assert(str_views(r@) =~= head + paths_of(node_views(plan.compile@)).take(0));
    let mut i: usize = 0;
    while i < plan.compile.len()
        invariant
            i <= plan.compile.len(),
            head == seq!["-d"@, out_dir@],
            str_views(r@) == head + paths_of(node_views(plan.compile@)).take(i as int),
        decreases plan.compile.len() - i,
    {
        let path = plan.compile[i].path.clone();
        let ghost paths = paths_of(node_views(plan.compile@));
        assert(str_views(r@.push(path)) =~= str_views(r@).push(path@));
        assert(paths.take(i + 1) =~= paths.take(i as int).push(path@));
        assert(head + paths.take(i as int).push(path@) =~= (head + paths.take(i as int)).push(
            path@,
        ));
        r.push(path);
        i += 1;
    }
    assert(paths_of(node_views(plan.compile@)).take(plan.compile.len() as int) == paths_of(
        node_views(plan.compile@),
    ));
    r
}

/// The one compiler invocation of a build: its arguments, or nothing
/// where there is nothing to compile.
pub fn compiler_invocation(out_dir: &str, plan: &BuildPlan) -> (r: Option<Vec<String>>)
    ensures
        match r {
            Some(args) => plan.compile@.len() > 0 && str_views(args@) == compiler_args_of(
                out_dir@,
                node_views(plan.compile@),
            ),
            None => plan.compile@.len() == 0,
        },
{
    if plan.compile.len() == 0 {
        None
    } else {
        Some(compiler_args(out_dir, plan))
    }
}

/// A compiled file with the fingerprint of its source as it is now and
/// the path of its artifact.
#[derive(Debug)]
pub struct Compiled {
    pub name: String,
    pub hash: String,
    pub class_path: String,
}

/// A list of compiled files as triples of name, fingerprint and artifact path.
pub open spec fn update_views(v: Seq<Compiled>) -> Seq<(Seq<char>, Seq<char>, Seq<char>)> {
    Seq::new(v.len(), |i: int| (v[i].name@, v[i].hash@, v[i].class_path@))
}

/// The store after the first `k` of the updates have been written, each
/// replacing what the store had under its name.
pub open spec fn recorded_upto(
    cache: Map<Seq<char>, (Seq<char>, Seq<char>)>,
    updates: Seq<(Seq<char>, Seq<char>, Seq<char>)>,
    k: int,
) -> Map<Seq<char>, (Seq<char>, Seq<char>)>
    decreases k,
{
    if k <= 0 {
        cache
    } else {
        recorded_upto(cache, updates, k - 1).insert(
            updates[k - 1].0,
            (updates[k - 1].1, updates[k - 1].2),
        )
    }
}

/// The store after all the updates have been written.
pub open spec fn recorded(
    cache: Map<Seq<char>, (Seq<char>, Seq<char>)>,
    updates: Seq<(Seq<char>, Seq<char>, Seq<char>)>,
) -> Map<Seq<char>, (Seq<char>, Seq<char>)> {
    recorded_upto(cache, updates, updates.len() as int)
}

/// The names of the store after the first `k` of the updates have been
/// written: a name that the store did not have comes last.
pub open spec fn recorded_names_upto(
    names: Seq<Seq<char>>,
    updates: Seq<(Seq<char>, Seq<char>, Seq<char>)>,
    k: int,
) -> Seq<Seq<char>>
    decreases k,
{
    if k <= 0 {
        names
    } else {
        with_key(recorded_names_upto(names, updates, k - 1), updates[k - 1].0)
    }
}

/// Writes a fresh entry for every compiled file.
pub fn record_build(cache: &mut Cache, compiled: &Vec<Compiled>)
    requires
        old(cache).wf(),
    ensures
        final(cache).wf(),
        final(cache)@ == recorded(old(cache)@, update_views(compiled@)),
        str_views(final(cache).names@) == recorded_names_upto(
            str_views(old(cache).names@),
            update_views(compiled@),
            compiled@.len() as int,
        ),
{
    let mut i: usize = 0;
    while i < compiled.len()
        invariant
            i <= compiled.len(),
            cache.wf(),
            cache@ == recorded_upto(old(cache)@, update_views(compiled@), i as int),
            str_views(cache.names@) == recorded_names_upto(
                str_views(old(cache).names@),
                update_views(compiled@),
                i as int,
            ),
        decreases compiled.len() - i,
    {
        let ghost names = str_views(cache.names@);
        let ghost name = compiled@[i as int].name@;
        assert(names.to_set().contains(name) == names.contains(name));
        assert(cache@.contains_key(name) == cache.entries@.dom().contains(name));
        let entry = CacheEntry {
            hash: compiled[i].hash.clone(),
            class_path: compiled[i].class_path.clone(),
        };
        cache.insert(compiled[i].name.clone(), entry);
        i += 1;
    }
}

/// The observations of a second run right after a build that succeeded:
/// every artifact exists and no fingerprint has changed.
pub open spec fn all_present(observed: Seq<ObservationView>) -> Seq<ObservationView> {
    Seq::new(
        observed.len(),
        |i: int| ObservationView { artifact_exists: true, hash: observed[i].hash },
    )
}

/// The compiled positions are those, and all those, that must be compiled.
proof fn lemma_compiled_positions(
    nodes: Map<Seq<char>, NodeView>,
    cache: Map<Seq<char>, (Seq<char>, Seq<char>)>,
    order: Seq<Seq<char>>,
    observed: Seq<ObservationView>,
    force: bool,
    k: int,
)
    requires
        0 <= k,
    ensures
        forall|j: int|
            0 <= j < compiled_upto(nodes, cache, order, observed, force, k).len() ==> {
                let p = #[trigger] compiled_upto(nodes, cache, order, observed, force, k)[j];
                0 <= p < k && must_compile(nodes, cache, order, observed, force, p)
            },
        forall|p: int|
            0 <= p < k && must_compile(nodes, cache, order, observed, force, p) ==> compiled_upto(
                nodes,
                cache,
                order,
                observed,
                force,
                k,
            ).contains(p),
    decreases k,
{
    let now = compiled_upto(nodes, cache, order, observed, force, k);
    if k > 0 {
        let before = compiled_upto(nodes, cache, order, observed, force, k - 1);
        lemma_compiled_positions(nodes, cache, order, observed, force, k - 1);
        assert forall|p: int|
            0 <= p < k && must_compile(nodes, cache, order, observed, force, p) implies now.contains(
            p,
        ) by {
            if p < k - 1 {
                assert(before.contains(p));
                let j = choose|j: int| 0 <= j < before.len() && before[j] == p;
                assert(now[j] == p);
            } else {
                assert(now[now.len() - 1] == p);
            }
        }
    }
}

/// Of names that differ, every update is found in the store as it was
/// written, and a name without update is found as it was.
proof fn lemma_recorded_entry(
    cache: Map<Seq<char>, (Seq<char>, Seq<char>)>,
    updates: Seq<(Seq<char>, Seq<char>, Seq<char>)>,
    k: int,
    name: Seq<char>,
)
    requires
        0 <= k <= updates.len(),
        forall|i: int, j: int|
            0 <= i < updates.len() && 0 <= j < updates.len() && i != j ==> updates[i].0
                != updates[j].0,
    ensures
        (forall|j: int| 0 <= j < k ==> updates[j].0 != name) ==> recorded_upto(cache, updates, k).contains_key(
            name,
        ) == cache.contains_key(name) && (cache.contains_key(name) ==> recorded_upto(
            cache,
            updates,
            k,
        )[name] == cache[name]),
        forall|j: int|
            0 <= j < k && updates[j].0 == name ==> recorded_upto(cache, updates, k).contains_key(
                name,
            ) && recorded_upto(cache, updates, k)[name] == (updates[j].1, updates[j].2),
    decreases k,
{
    if k > 0 {
        lemma_recorded_entry(cache, updates, k - 1, name);
    }
}

/// A run that follows a successful build, with every artifact in place,
/// no source changed and the store written, compiles nothing: `updates`
/// holds, for every file that the build compiled, its name and unchanged
/// fingerprint.
pub proof fn lemma_rebuild_is_idempotent(
    nodes: Map<Seq<char>, NodeView>,
    cache: Map<Seq<char>, (Seq<char>, Seq<char>)>,
    order: Seq<Seq<char>>,
    observed: Seq<ObservationView>,
    force: bool,
    updates: Seq<(Seq<char>, Seq<char>, Seq<char>)>,
)
    requires
        order.no_duplicates(),
        observed.len() == order.len(),
        keyed_by_name(nodes),
        updates.len() == compiled_upto(nodes, cache, order, observed, force, order.len() as int).len(),
        forall|j: int|
            0 <= j < updates.len() ==> {
                let p = compiled_upto(nodes, cache, order, observed, force, order.len() as int)[j];
                (#[trigger] updates[j]).0 == order[p] && updates[j].1 == observed[p].hash
            },
    ensures
        compiled_upto(
            nodes,
            recorded(cache, updates),
            order,
            all_present(observed),
            false,
            order.len() as int,
        ) == Seq::<int>::empty(),
{
    let n = order.len() as int;
    let first = compiled_upto(nodes, cache, order, observed, force, n);
    let after = recorded(cache, updates);
    lemma_compiled_positions(nodes, cache, order, observed, force, n);
    lemma_positions_increase(nodes, cache, order, observed, force, n);
    assert forall|i: int, j: int|
        0 <= i < updates.len() && 0 <= j < updates.len() && i != j implies updates[i].0
        != updates[j].0 by {
        assert(first[i] != first[j]);
    }
    assert forall|p: int| 0 <= p < n implies !must_compile(
        nodes,
        after,
        order,
        all_present(observed),
        false,
        p,
    ) by {
        if nodes.contains_key(order[p]) {
            let name = order[p];
            lemma_recorded_entry(cache, updates, updates.len() as int, name);
            if must_compile(nodes, cache, order, observed, force, p) {
                assert(first.contains(p));
                let j = choose|j: int| 0 <= j < first.len() && first[j] == p;
                assert(updates[j].0 == name);
            } else {
                assert forall|j: int| 0 <= j < updates.len() implies updates[j].0 != name by {
                    let q = first[j];
                    assert(must_compile(nodes, cache, order, observed, force, q));
                }
            }
        }
    }
    lemma_nothing_to_compile(nodes, after, order, all_present(observed), false, n);
}

/// The compiled positions are listed in ascending order.
proof fn lemma_positions_increase(
    nodes: Map<Seq<char>, NodeView>,
    cache: Map<Seq<char>, (Seq<char>, Seq<char>)>,
    order: Seq<Seq<char>>,
    observed: Seq<ObservationView>,
    force: bool,
    k: int,
)
    requires
        0 <= k,
    ensures
        forall|i: int, j: int|
            0 <= i < j < compiled_upto(nodes, cache, order, observed, force, k).len()
                ==> compiled_upto(nodes, cache, order, observed, force, k)[i] < compiled_upto(
                nodes,
                cache,
                order,
                observed,
                force,
                k,
            )[j],
    decreases k,
{
    if k > 0 {
        lemma_positions_increase(nodes, cache, order, observed, force, k - 1);
        lemma_compiled_positions(nodes, cache, order, observed, force, k - 1);
        let before = compiled_upto(nodes, cache, order, observed, force, k - 1);
        let now = compiled_upto(nodes, cache, order, observed, force, k);
        assert forall|i: int, j: int| 0 <= i < j < now.len() implies now[i] < now[j] by {
            if j < before.len() {
                assert(now[i] == before[i]);
                assert(now[j] == before[j]);
            } else {
                assert(now[i] == before[i]);
                assert(now[j] == k - 1);
            }
        }
    }
}

/// Where no position must be compiled, none is.
proof fn lemma_nothing_to_compile(
    nodes: Map<Seq<char>, NodeView>,
    cache: Map<Seq<char>, (Seq<char>, Seq<char>)>,
    order: Seq<Seq<char>>,
    observed: Seq<ObservationView>,
    force: bool,
    k: int,
)
    requires
        0 <= k,
        forall|p: int| 0 <= p < k ==> !must_compile(nodes, cache, order, observed, force, p),
    ensures
        compiled_upto(nodes, cache, order, observed, force, k) == Seq::<int>::empty(),
    decreases k,
{
    if k > 0 {
        lemma_nothing_to_compile(nodes, cache, order, observed, force, k - 1);
    }
}

} // verus!
