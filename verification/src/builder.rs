//! Construction of the dependency graph as a traversal that asks its driver
//! for every file it needs: the traversal decides, the driver reads.

use vstd::prelude::*;
use vstd::hash_map::StringHashMap;
use crate::deps::{declared_of, holds_text, implicit_of, parse_dependencies};
use crate::graph::{Graph, Node, NodeView};
use crate::text::{append_str, chars_of, str_views, string_of, with_key};

verus! {

/// What the traversal reports besides the graph.
#[derive(Debug, PartialEq, Eq)]
pub enum Warning {
    /// `file` uses `class` without declaring it; `included` says whether the
    /// class was added to the declared dependencies.
    ImplicitDependency { file: String, class: String, included: bool },
    /// A declared dependency that names no existing file.
    DependencyNotFound { dependency: String },
}

/// A warning as plain values.
pub enum WarningView {
    ImplicitDependency { file: Seq<char>, class: Seq<char>, included: bool },
    DependencyNotFound { dependency: Seq<char> },
}

impl View for Warning {
    type V = WarningView;

    open spec fn view(&self) -> WarningView {
        match *self {
            Warning::ImplicitDependency { file, class, included } => WarningView::ImplicitDependency {
                file: file@,
                class: class@,
                included,
            },
            Warning::DependencyNotFound { dependency } => WarningView::DependencyNotFound {
                dependency: dependency@,
            },
        }
    }
}

/// A file whose dependencies are being resolved: `next` of them are done.
pub struct Frame {
    pub node: Node,
    pub next: usize,
}

/// A frame as plain values.
pub struct FrameView {
    pub node: NodeView,
    pub next: int,
}

impl View for Frame {
    type V = FrameView;

    open spec fn view(&self) -> FrameView {
        FrameView { node: self.node@, next: self.next as int }
    }
}

/// What the driver is asked to do next.
#[derive(Debug, PartialEq, Eq)]
pub enum Request {
    /// Read the file at `path` and the other sources of its directory.
    ReadSource { path: String },
    /// Resolve `dependency` against the source root and say whether the
    /// file exists.
    Locate { dependency: String },
    /// Nothing: the graph is complete.
    Finished,
}

/// A request as plain values.
pub enum RequestView {
    ReadSource { path: Seq<char> },
    Locate { dependency: Seq<char> },
    Finished,
}

impl View for Request {
    type V = RequestView;

    open spec fn view(&self) -> RequestView {
        match *self {
            Request::ReadSource { path } => RequestView::ReadSource { path: path@ },
            Request::Locate { dependency } => RequestView::Locate { dependency: dependency@ },
            Request::Finished => RequestView::Finished,
        }
    }
}

/// What the driver found.
pub enum Event {
    /// The text of the file asked for, and the texts of the other sources
    /// of its directory.
    Source { content: String, siblings: Vec<String> },
    /// The dependency asked for exists: its leaf name and its path.
    Located { name: String, path: String },
    /// The dependency asked for does not exist.
    Missing,
}

/// An event as plain values.
pub enum EventView {
    Source { content: Seq<char>, siblings: Seq<Seq<char>> },
    Located { name: Seq<char>, path: Seq<char> },
    Missing,
}

impl View for Event {
    type V = EventView;

    open spec fn view(&self) -> EventView {
        match *self {
            Event::Source { content, siblings } => EventView::Source {
                content: content@,
                siblings: str_views(siblings@),
            },
            Event::Located { name, path } => EventView::Located { name: name@, path: path@ },
            Event::Missing => EventView::Missing,
        }
    }
}

/// The traversal between two steps.
pub struct GraphBuilder {
    pub auto_include_implicit: bool,
    pub visited: StringHashMap<bool>,
    pub stack: Vec<Frame>,
    pub graph: Graph,
    pub warnings: Vec<Warning>,
    pub awaiting: Option<(String, String)>,
}

/// The traversal between two steps, as plain values: the names
/// visited, the frames of the files whose dependencies are being resolved,
/// the nodes entered into the graph, their names in the order in which
/// they were first entered, the warnings given, and the file whose source is
/// awaited.
pub struct BuilderState {
    pub auto_include: bool,
    pub visited: Set<Seq<char>>,
    pub stack: Seq<FrameView>,
    pub nodes: Map<Seq<char>, NodeView>,
    pub entered: Seq<Seq<char>>,
    pub warnings: Seq<WarningView>,
    pub awaiting: Option<(Seq<char>, Seq<char>)>,
}

/// The nodes of a graph as plain values.
pub open spec fn graph_view(g: Graph) -> Map<Seq<char>, NodeView> {
    Map::new(|k: Seq<char>| g.nodes@.contains_key(k), |k: Seq<char>| g.nodes@[k]@)
}

/// The frames of a stack as plain values.
pub open spec fn frame_views(stack: Seq<Frame>) -> Seq<FrameView> {
    Seq::new(stack.len(), |i: int| stack[i]@)
}

/// A list of warnings as plain values.
pub open spec fn warning_views(warnings: Seq<Warning>) -> Seq<WarningView> {
    Seq::new(warnings.len(), |i: int| warnings[i]@)
}

/// The awaited file, name and path, as plain values.
pub open spec fn awaiting_view(a: Option<(String, String)>) -> Option<(Seq<char>, Seq<char>)> {
    match a {
        Some((name, path)) => Some((name@, path@)),
        None => None,
    }
}

impl View for GraphBuilder {
    type V = BuilderState;

    open spec fn view(&self) -> BuilderState {
        BuilderState {
            auto_include: self.auto_include_implicit,
            visited: self.visited@.dom(),
            stack: frame_views(self.stack@),
            nodes: graph_view(self.graph),
            entered: str_views(self.graph.names@),
            warnings: warning_views(self.warnings@),
            awaiting: awaiting_view(self.awaiting),
        }
    }
}

/// The file name of the class `class`.
pub open spec fn source_name_of(class: Seq<char>) -> Seq<char> {
    class + ".java"@
}

/// `declared` followed by the files of the first `k` implicit classes that
/// it does not list yet.
pub open spec fn folded(declared: Seq<Seq<char>>, implicit: Seq<Seq<char>>, k: int) -> Seq<Seq<char>>
    decreases k,
{
    if k <= 0 {
        declared
    } else {
        let before = folded(declared, implicit, k - 1);
        let file = source_name_of(implicit[k - 1]);
        if before.contains(file) {
            before
        } else {
            before.push(file)
        }
    }
}

/// One warning for each implicit dependency of `file`.
pub open spec fn implicit_warnings(file: Seq<char>, implicit: Seq<Seq<char>>, included: bool) -> Seq<
    WarningView,
> {
    Seq::new(
        implicit.len(),
        |i: int| WarningView::ImplicitDependency { file, class: implicit[i], included },
    )
}

/// The top frame has all its dependencies resolved.
pub open spec fn top_is_done(s: BuilderState) -> bool {
    s.stack.len() > 0 && s.stack.last().next >= s.stack.last().node.deps.len()
}

/// Enters into the graph every frame at the top of the stack whose
/// dependencies are all resolved.
pub open spec fn settled(s: BuilderState) -> BuilderState
    decreases s.stack.len(),
{
    if top_is_done(s) {
        let top = s.stack.last();
        settled(
            BuilderState {
                stack: s.stack.drop_last(),
                nodes: s.nodes.insert(top.node.name, top.node),
                entered: with_key(s.entered, top.node.name),
                ..s
            },
        )
    } else {
        s
    }
}

/// The state with one more dependency of the top frame resolved.
pub open spec fn bumped(s: BuilderState) -> BuilderState {
    let top = s.stack.last();
    BuilderState {
        stack: s.stack.drop_last().push(FrameView { node: top.node, next: top.next + 1 }),
        ..s
    }
}

/// The state after the source of the awaited file has arrived.
pub open spec fn entered(
    s: BuilderState,
    name: Seq<char>,
    path: Seq<char>,
    content: Seq<char>,
    siblings: Seq<Seq<char>>,
) -> BuilderState {
    let declared = declared_of(content);
    let implicit = implicit_of(content, declared, siblings);
    let deps = if s.auto_include {
        folded(declared, implicit, implicit.len() as int)
    } else {
        declared
    };
    let node = NodeView { name, path, deps, implicit_deps: implicit };
    settled(
        BuilderState {
            stack: s.stack.push(FrameView { node, next: 0 }),
            warnings: s.warnings + implicit_warnings(name, implicit, s.auto_include),
            awaiting: None,
            ..s
        },
    )
}

/// The state after `event`. An event that does not answer the pending
/// request changes nothing.
pub open spec fn stepped(s: BuilderState, event: EventView) -> BuilderState {
    match (s.awaiting, event) {
        (Some((name, path)), EventView::Source { content, siblings }) => entered(
            s,
            name,
            path,
            content,
            siblings,
        ),
        (None, EventView::Located { name, path }) => if s.stack.len() == 0 {
            s
        } else if s.visited.contains(name) {
            settled(bumped(s))
        } else {
            BuilderState { visited: s.visited.insert(name), awaiting: Some((name, path)), ..bumped(s) }
        },
        (None, EventView::Missing) => if s.stack.len() == 0 {
            s
        } else {
            let top = s.stack.last();
            settled(
                BuilderState {
                    warnings: s.warnings.push(
                        WarningView::DependencyNotFound { dependency: top.node.deps[top.next] },
                    ),
                    ..bumped(s)
                },
            )
        },
        _ => s,
    }
}

/// What the state asks of the driver.
pub open spec fn pending(s: BuilderState) -> RequestView {
    match s.awaiting {
        Some((name, path)) => RequestView::ReadSource { path },
        None => if s.stack.len() > 0 {
            RequestView::Locate { dependency: s.stack.last().node.deps[s.stack.last().next] }
        } else {
            RequestView::Finished
        },
    }
}

/// The state in which the traversal starts: the entry file is awaited.
pub open spec fn initial(name: Seq<char>, path: Seq<char>, auto_include: bool) -> BuilderState {
    BuilderState {
        auto_include,
        visited: Set::empty().insert(name),
        stack: Seq::empty(),
        nodes: Map::empty(),
        entered: Seq::empty(),
        warnings: Seq::empty(),
        awaiting: Some((name, path)),
    }
}

/// Every node stands under its own name.
pub open spec fn keyed_by_name(nodes: Map<Seq<char>, NodeView>) -> bool {
    forall|n: Seq<char>| nodes.contains_key(n) ==> (#[trigger] nodes[n]).name == n
}

/// Every node of the graph stands under its own name, the frames of the
/// stack bear different names, all of them visited, and the file that is
/// awaited is visited and not on the stack.
pub open spec fn state_ok(s: BuilderState) -> bool {
    &&& keyed_by_name(s.nodes)
    &&& forall|i: int, j: int|
        0 <= i < j < s.stack.len() ==> (#[trigger] s.stack[i]).node.name != (
        #[trigger] s.stack[j]).node.name
    &&& forall|i: int| 0 <= i < s.stack.len() ==> s.visited.contains((#[trigger] s.stack[i]).node.name)
    &&& match s.awaiting {
        Some((name, path)) => s.visited.contains(name) && forall|i: int|
            0 <= i < s.stack.len() ==> (#[trigger] s.stack[i]).node.name != name,
        None => true,
    }
}

/// Settling takes frames from the top of the stack and changes nothing else.
pub proof fn lemma_settled_rest(s: BuilderState)
    requires
        state_ok(s),
    ensures
        state_ok(settled(s)),
        settled(s).auto_include == s.auto_include,
        settled(s).warnings == s.warnings,
        settled(s).awaiting == s.awaiting,
        settled(s).visited == s.visited,
        settled(s).stack.len() <= s.stack.len(),
        forall|k: int| 0 <= k < settled(s).stack.len() ==> settled(s).stack[k] == s.stack[k],
    decreases s.stack.len(),
{
    if top_is_done(s) {
        let top = s.stack.last();
        let next = BuilderState {
            stack: s.stack.drop_last(),
            nodes: s.nodes.insert(top.node.name, top.node),
            entered: with_key(s.entered, top.node.name),
            ..s
        };
        assert(forall|k: int| 0 <= k < next.stack.len() ==> next.stack[k] == s.stack[k]);
        assert(state_ok(next));
        lemma_settled_rest(next);
    }
}

/// Settling leaves a node of the graph as it is unless a frame bears its name.
pub proof fn lemma_settled_untouched(s: BuilderState, n: Seq<char>)
    requires
        s.nodes.contains_key(n),
        forall|k: int| 0 <= k < s.stack.len() ==> (#[trigger] s.stack[k]).node.name != n,
    ensures
        settled(s).nodes.contains_key(n),
        settled(s).nodes[n] == s.nodes[n],
    decreases s.stack.len(),
{
    if top_is_done(s) {
        let top = s.stack.last();
        let next = BuilderState {
            stack: s.stack.drop_last(),
            nodes: s.nodes.insert(top.node.name, top.node),
            entered: with_key(s.entered, top.node.name),
            ..s
        };
        assert(s.stack[s.stack.len() - 1].node.name != n);
        assert forall|k: int| 0 <= k < next.stack.len() implies (#[trigger] next.stack[k]).node.name
            != n by {
            assert(next.stack[k] == s.stack[k]);
        }
        lemma_settled_untouched(next, n);
    }
}

/// Every frame that settling takes from the stack is entered into the
/// graph as it was.
pub proof fn lemma_settled_entered(s: BuilderState, i: int)
    requires
        state_ok(s),
        0 <= i < s.stack.len(),
        i >= settled(s).stack.len(),
    ensures
        settled(s).nodes.contains_key(s.stack[i].node.name),
        settled(s).nodes[s.stack[i].node.name] == s.stack[i].node,
    decreases s.stack.len(),
{
    if top_is_done(s) {
        let top = s.stack.last();
        let next = BuilderState {
            stack: s.stack.drop_last(),
            nodes: s.nodes.insert(top.node.name, top.node),
            entered: with_key(s.entered, top.node.name),
            ..s
        };
        assert(forall|k: int| 0 <= k < next.stack.len() ==> next.stack[k] == s.stack[k]);
        assert(state_ok(next));
        if i == s.stack.len() - 1 {
            let n = top.node.name;
            assert forall|k: int| 0 <= k < next.stack.len() implies (
            #[trigger] next.stack[k]).node.name != n by {
                assert(next.stack[k] == s.stack[k]);
                assert(s.stack[k].node.name != s.stack[i].node.name);
            }
            lemma_settled_untouched(next, n);
        } else {
            assert(next.stack[i] == s.stack[i]);
            lemma_settled_entered(next, i);
        }
    }
}

/// Resolving one more dependency of the top frame keeps the state valid.
pub proof fn lemma_bumped_ok(s: BuilderState)
    requires
        state_ok(s),
        s.stack.len() > 0,
    ensures
        state_ok(bumped(s)),
        forall|k: int|
            0 <= k < s.stack.len() ==> (#[trigger] bumped(s).stack[k]).node == s.stack[k].node,
{
    let b = bumped(s);
    assert forall|k: int| 0 <= k < s.stack.len() implies (#[trigger] b.stack[k]).node
        == s.stack[k].node by {}
    assert forall|i: int, j: int| 0 <= i < j < b.stack.len() implies (#[trigger] b.stack[i]).node.name
        != (#[trigger] b.stack[j]).node.name by {
        assert(s.stack[i].node.name != s.stack[j].node.name);
    }
    assert forall|i: int| 0 <= i < b.stack.len() implies b.visited.contains(
        (#[trigger] b.stack[i]).node.name,
    ) by {
        assert(s.visited.contains(s.stack[i].node.name));
    }
    match s.awaiting {
        Some((name, path)) => {
            assert forall|i: int| 0 <= i < b.stack.len() implies (#[trigger] b.stack[i]).node.name
                != name by {
                assert(s.stack[i].node.name != name);
            }
        },
        None => {},
    }
}

/// A declared dependency that names no existing file is warned about and
/// stays among the dependencies of its node; the traversal goes on with
/// the rest.
pub proof fn lemma_missing_dependency_is_tolerated(s: BuilderState)
    requires
        state_ok(s),
        s.awaiting is None,
        s.stack.len() > 0,
        0 <= s.stack.last().next < s.stack.last().node.deps.len(),
    ensures
        ({
            let top = s.stack.last();
            let dependency = top.node.deps[top.next];
            let after = stepped(s, EventView::Missing);
            &&& after.warnings == s.warnings.push(WarningView::DependencyNotFound { dependency })
            &&& after.awaiting is None
            &&& top.node.deps.contains(dependency)
            &&& if after.stack.len() == s.stack.len() {
                after.stack.last().node == top.node
            } else {
                after.nodes.contains_key(top.node.name) && after.nodes[top.node.name] == top.node
            }
        }),
{
    let top = s.stack.last();
    let dependency = top.node.deps[top.next];
    let warned = BuilderState {
        warnings: s.warnings.push(WarningView::DependencyNotFound { dependency }),
        ..bumped(s)
    };
    let last = s.stack.len() - 1;
    lemma_bumped_ok(s);
    assert(warned.stack == bumped(s).stack);
    assert(state_ok(warned));
    lemma_settled_rest(warned);
    if settled(warned).stack.len() < s.stack.len() {
        lemma_settled_entered(warned, last);
    }
}

/// An entry file that declares no dependency, and to which none is
/// added, makes a graph of one node: once its source has arrived the
/// traversal is finished.
pub proof fn lemma_entry_without_dependencies_stands_alone(
    name: Seq<char>,
    path: Seq<char>,
    auto_include: bool,
    content: Seq<char>,
    siblings: Seq<Seq<char>>,
)
    requires
        declared_of(content).len() == 0,
        auto_include ==> implicit_of(content, declared_of(content), siblings).len() == 0,
    ensures
        ({
            let after = stepped(
                initial(name, path, auto_include),
                EventView::Source { content, siblings },
            );
            &&& pending(after) is Finished
            &&& after.nodes.dom() == Set::<Seq<char>>::empty().insert(name)
            &&& after.entered == seq![name]
            &&& after.nodes[name].name == name
            &&& after.nodes[name].path == path
            &&& after.nodes[name].deps.len() == 0
        }),
{
    let s = initial(name, path, auto_include);
    let declared = declared_of(content);
    let implicit = implicit_of(content, declared, siblings);
    let deps = if auto_include {
        folded(declared, implicit, implicit.len() as int)
    } else {
        declared
    };
    let node = NodeView { name, path, deps, implicit_deps: implicit };
    let pushed = BuilderState {
        stack: s.stack.push(FrameView { node, next: 0 }),
        warnings: s.warnings + implicit_warnings(name, implicit, auto_include),
        awaiting: None,
        ..s
    };
    assert(pushed.stack.last() == FrameView { node, next: 0 });
    assert(top_is_done(pushed));
    let popped = BuilderState {
        stack: pushed.stack.drop_last(),
        nodes: pushed.nodes.insert(name, node),
        entered: with_key(pushed.entered, name),
        ..pushed
    };
    assert(popped.stack.len() == 0);
    assert(settled(popped) == popped);
    assert(settled(pushed) == popped);
    assert(popped.nodes.dom() =~= Set::<Seq<char>>::empty().insert(name));
    assert(popped.entered =~= seq![name]);
}

/// The file name of the class `class`.
pub fn source_name(class: &str) -> (r: String)
    ensures
        r@ == source_name_of(class@),
{
    let mut v = chars_of(class);
    append_str(&mut v, ".java");
    string_of(&v)
}

/// Starts the traversal at the entry file, of leaf name `main_name` and
/// path `main_path`.
pub fn build_dependency_graph(main_name: &str, main_path: &str, auto_include_implicit: bool) -> (b:
    GraphBuilder)
    ensures
        b.wf(),
        b@ == initial(main_name@, main_path@, auto_include_implicit),
{
    let mut visited: StringHashMap<bool> = StringHashMap::new();
    visited.insert(main_name.to_owned(), true);
    let b = GraphBuilder {
        auto_include_implicit,
        visited,
        stack: Vec::new(),
        graph: Graph::new(),
        warnings: Vec::new(),
        awaiting: Some((main_name.to_owned(), main_path.to_owned())),
    };
    proof {
        let s = initial(main_name@, main_path@, auto_include_implicit);
        assert(b@.visited =~= s.visited);
        assert(b@.stack =~= s.stack);
        assert(b@.nodes =~= s.nodes);
        assert(b@.entered =~= s.entered);
        assert(b@.warnings =~= s.warnings);
    }
    b
}

impl GraphBuilder {
    /// The graph lists its keys once, no frame has more dependencies
    /// resolved than it has, while no file is awaited the top frame has one
    /// left, and the state is valid.
    pub open spec fn wf(&self) -> bool {
        &&& self.graph.wf()
        &&& forall|i: int|
            0 <= i < self.stack@.len() ==> (#[trigger] self.stack@[i]).next
                <= self.stack@[i].node.deps@.len()
        &&& self.awaiting is None ==> !top_is_done(self@)
        &&& state_ok(self@)
    }

    /// What the driver is to do next.
    pub fn request(&self) -> (r: Request)
        requires
            self.wf(),
        ensures
            r@ == pending(self@),
    {
        match &self.awaiting {
            Some(file) => Request::ReadSource { path: file.1.clone() },
            None => {
                if self.stack.len() > 0 {
                    let top = &self.stack[self.stack.len() - 1];
                    assert(self@.stack.last() == top@);
                    assert(str_views(top.node.deps@)[top.next as int] == top.node.deps@[top.next as int]@);
                    Request::Locate { dependency: top.node.deps[top.next].clone() }
                } else {
                    Request::Finished
                }
            },
        }
    }

    /// Whether the graph is complete.
    pub fn is_finished(&self) -> (r: bool)
        ensures
            r == (pending(self@) is Finished),
    {
        self.awaiting.is_none() && self.stack.len() == 0
    }

    fn settle(&mut self)
        requires
            old(self).graph.wf(),
            forall|i: int|
                0 <= i < old(self).stack@.len() ==> (#[trigger] old(self).stack@[i]).next <= old(
                    self,
                ).stack@[i].node.deps@.len(),
        ensures
            final(self)@ == settled(old(self)@),
            final(self).graph.wf(),
            forall|i: int|
                0 <= i < final(self).stack@.len() ==> (#[trigger] final(self).stack@[i]).next
                    <= final(self).stack@[i].node.deps@.len(),
            !top_is_done(final(self)@),
            final(self).awaiting == old(self).awaiting,
    {
        loop
            invariant
                self.graph.wf(),
                forall|i: int|
                    0 <= i < self.stack@.len() ==> (#[trigger] self.stack@[i]).next
                        <= self.stack@[i].node.deps@.len(),
                settled(self@) == settled(old(self)@),
                self.awaiting == old(self).awaiting,
            ensures
                self@ == settled(old(self)@),
                self.graph.wf(),
                forall|i: int|
                    0 <= i < self.stack@.len() ==> (#[trigger] self.stack@[i]).next
                        <= self.stack@[i].node.deps@.len(),
                !top_is_done(self@),
                self.awaiting == old(self).awaiting,
            decreases self.stack@.len(),
        {
            let n = self.stack.len();
            if n == 0 {
                break ;
            }
            assert(self@.stack.last() == self.stack@[n - 1]@);
            if self.stack[n - 1].next < self.stack[n - 1].node.deps.len() {
                assert(str_views(self.stack@[n - 1].node.deps@).len()
                    == self.stack@[n - 1].node.deps@.len());
                break ;
            }
            let ghost before = self@;
            assert(str_views(self.stack@[n - 1].node.deps@).len()
                == self.stack@[n - 1].node.deps@.len());
            assert(top_is_done(before));
            let frame = self.stack.pop().unwrap();
            let key = frame.node.name.clone();
            self.graph.insert(key, frame.node);
            proof {
                let top = before.stack.last();
                let after = BuilderState {
                    stack: before.stack.drop_last(),
                    nodes: before.nodes.insert(top.node.name, top.node),
                    entered: with_key(before.entered, top.node.name),
                    ..before
                };
                assert(self@.stack =~= after.stack);
                assert(self@.nodes =~= after.nodes);
                assert(before.entered.to_set().contains(top.node.name) == before.entered.contains(
                    top.node.name,
                ));
                assert(self@.entered == after.entered);
                assert(self@ == after);
            }
        }
    }

    fn bump(&mut self)
        requires
            old(self).stack@.len() > 0,
            !top_is_done(old(self)@),
            forall|i: int|
                0 <= i < old(self).stack@.len() ==> (#[trigger] old(self).stack@[i]).next <= old(
                    self,
                ).stack@[i].node.deps@.len(),
        ensures
            final(self)@ == bumped(old(self)@),
            final(self).graph == old(self).graph,
            final(self).awaiting == old(self).awaiting,
            forall|i: int|
                0 <= i < final(self).stack@.len() ==> (#[trigger] final(self).stack@[i]).next
                    <= final(self).stack@[i].node.deps@.len(),
    {
        let ghost n = self.stack@.len();
        assert(self@.stack.last() == self.stack@[n - 1]@);
        assert(str_views(self.stack@[n - 1].node.deps@).len() == self.stack@[n - 1].node.deps@.len());
        let mut frame = self.stack.pop().unwrap();
        assert(frame == old(self).stack@[n - 1]);
        assert(frame.next < frame.node.deps@.len());
        assert(frame.node.deps@.len() == frame.node.deps.len());
        frame.next = frame.next + 1;
        self.stack.push(frame);
        assert(self@.stack =~= bumped(old(self)@).stack);
    }

    /// Takes the driver's answer to the pending request and moves on. An
    /// event that does not answer the request changes nothing.
    pub fn advance(&mut self, event: Event)
        requires
            old(self).wf(),
        ensures
            final(self).wf(),
            final(self)@ == stepped(old(self)@, event@),
    {
        match event {
            Event::Source { content, siblings } => {
                if self.awaiting.is_none() {
                    return ;
                }
                let file = self.awaiting.take().unwrap();
                let name = file.0;
                let path = file.1;
                let (declared, implicit) = parse_dependencies(content.as_str(), &siblings);
                let ghost s = old(self)@;
                let ghost found = str_views(implicit@);
                let mut deps = declared;
                let mut i: usize = 0;
                assert(warning_views(self.warnings@) + implicit_warnings(name@, found, s.auto_include).take(
                    0,
                ) == warning_views(self.warnings@));
                while i < implicit.len()
                    invariant
                        i <= implicit.len(),
                        found == str_views(implicit@),
                        s == old(self)@,
                        self.auto_include_implicit == s.auto_include,
                        self.visited == old(self).visited,
                        self.stack == old(self).stack,
                        self.graph == old(self).graph,
                        self.awaiting is None,
                        str_views(deps@) == if s.auto_include {
                            folded(declared_of(content@), found, i as int)
                        } else {
                            declared_of(content@)
                        },
                        warning_views(self.warnings@) == s.warnings + implicit_warnings(
                            name@,
                            found,
                            s.auto_include,
                        ).take(i as int),
                    decreases implicit.len() - i,
                {
                    let class = implicit[i].clone();
                    assert(class@ == found[i as int]);
                    if self.auto_include_implicit {
                        let file_name = source_name(class.as_str());
                        if !holds_text(&deps, file_name.as_str()) {
                            assert(str_views(deps@.push(file_name)) == str_views(deps@).push(
                                file_name@,
                            ));
                            deps.push(file_name);
                        }
                    }
                    let w = Warning::ImplicitDependency {
                        file: name.clone(),
                        class,
                        included: self.auto_include_implicit,
                    };
                    proof {
                        let all = implicit_warnings(name@, found, s.auto_include);
                        assert(warning_views(self.warnings@.push(w)) == warning_views(
                            self.warnings@,
                        ).push(w@));
                        assert(all.take(i + 1) == all.take(i as int).push(w@));
                        assert(s.warnings + all.take(i as int).push(w@) == (s.warnings + all.take(
                            i as int,
                        )).push(w@));
                    }
                    self.warnings.push(w);
                    i += 1;
                }
                proof {
                    let all = implicit_warnings(name@, found, s.auto_include);
                    assert(all.take(implicit.len() as int) == all);
                }
                let frame = Frame {
                    node: Node { name, path, deps, implicit_deps: implicit },
                    next: 0,
                };
                let ghost pushed = BuilderState {
                    stack: s.stack.push(frame@),
                    warnings: s.warnings + implicit_warnings(name@, found, s.auto_include),
                    awaiting: None,
                    ..s
                };
                self.stack.push(frame);
                assert(self@.stack =~= pushed.stack);
                assert(self@ == pushed);
                assert forall|i: int| 0 <= i < self.stack@.len() implies (
                #[trigger] self.stack@[i]).next <= self.stack@[i].node.deps@.len() by {
                    if i < old(self).stack@.len() {
                        assert(self.stack@[i] == old(self).stack@[i]);
                    }
                }
                proof {
                    assert forall|i: int| 0 <= i < pushed.stack.len() - 1 implies (
                    #[trigger] pushed.stack[i]) == s.stack[i] by {}
                    assert(state_ok(pushed));
                    lemma_settled_rest(pushed);
                }
                self.settle();
            },
            Event::Located { name, path } => {
                if self.awaiting.is_some() || self.stack.len() == 0 {
                    return ;
                }
                self.bump();
                proof {
                    lemma_bumped_ok(old(self)@);
                }
                if self.visited.contains_key(name.as_str()) {
                    proof {
                        lemma_settled_rest(self@);
                    }
                    self.settle();
                } else {
                    let key = name.clone();
                    self.visited.insert(key, true);
                    self.awaiting = Some((name, path));
                    assert(self@.visited =~= old(self)@.visited.insert(name@));
                    assert(self@.stack == bumped(old(self)@).stack);
                }
            },
            Event::Missing => {
                if self.awaiting.is_some() || self.stack.len() == 0 {
                    return ;
                }
                let n = self.stack.len();
                let top = &self.stack[n - 1];
                assert(self@.stack.last() == top@);
                assert(str_views(top.node.deps@).len() == top.node.deps@.len());
                assert(str_views(top.node.deps@)[top.next as int] == top.node.deps@[top.next as int]@);
                let w = Warning::DependencyNotFound { dependency: top.node.deps[top.next].clone() };
                assert(warning_views(self.warnings@.push(w)) == warning_views(self.warnings@).push(
                    w@,
                ));
                self.warnings.push(w);
                self.bump();
                proof {
                    lemma_bumped_ok(old(self)@);
                    assert(self@.stack == bumped(old(self)@).stack);
                    assert(state_ok(self@));
                    lemma_settled_rest(self@);
                }
                self.settle();
            },
        }
    }

    /// The graph built so far and the warnings given; after the last
    /// step, the whole graph.
    pub fn finish(self) -> (r: (Graph, Vec<Warning>))
        requires
            self.wf(),
        ensures
            r.0.wf(),
            graph_view(r.0) == self@.nodes,
            str_views(r.0.names@) == self@.entered,
            keyed_by_name(graph_view(r.0)),
            warning_views(r.1@) == self@.warnings,
    {
        (self.graph, self.warnings)
    }
}

} // verus!
