use jfu::builder::{build_dependency_graph, Event, GraphBuilder, Request, Warning};
use jfu::cache::{artifact_name, compute_hash, Cache, CacheEntry};
use jfu::graph::{topo_sort, Graph};
use jfu::plan::{
    compiler_args, compiler_invocation, plan_build, record_build, BuildPlan, Compiled, Observation,
};

/// A directory of sources held in memory: leaf name and text.
struct Sources {
    files: Vec<(String, String)>,
}

impl Sources {
    fn new(files: &[(&str, &str)]) -> Sources {
        Sources { files: files.iter().map(|(n, t)| (n.to_string(), t.to_string())).collect() }
    }

    fn text(&self, name: &str) -> Option<String> {
        self.files.iter().find(|(n, _)| n == name).map(|(_, t)| t.clone())
    }

    fn siblings(&self, name: &str) -> Vec<String> {
        self.files.iter().filter(|(n, _)| n != name).map(|(_, t)| t.clone()).collect()
    }

    fn set(&mut self, name: &str, text: &str) {
        for f in self.files.iter_mut() {
            if f.0 == name {
                f.1 = text.to_string();
            }
        }
    }
}

fn traverse(sources: &Sources, entry: &str, auto: bool) -> (Graph, Vec<Warning>) {
    let mut b: GraphBuilder = build_dependency_graph(entry, entry, auto);
    let mut steps = 0;
    loop {
        steps += 1;
        assert!(steps < 1000);
        match b.request() {
            Request::Finished => break,
            Request::ReadSource { path } => {
                let content = sources.text(&path).unwrap();
                let siblings = sources.siblings(&path);
                b.advance(Event::Source { content, siblings });
            }
            Request::Locate { dependency } => match sources.text(&dependency) {
                Some(_) => b.advance(Event::Located { name: dependency.clone(), path: dependency }),
                None => b.advance(Event::Missing),
            },
        }
    }
    assert!(b.is_finished());
    b.finish()
}

fn observe(sources: &Sources, graph: &Graph, order: &[String], built: &[&str]) -> Vec<Observation> {
    order
        .iter()
        .map(|name| match graph.get(name) {
            Some(node) => Observation {
                artifact_exists: built.contains(&name.as_str()),
                hash: compute_hash(sources.text(&node.path).unwrap().as_bytes()),
            },
            None => Observation { artifact_exists: false, hash: String::new() },
        })
        .collect()
}

fn compiled(sources: &Sources, plan: &BuildPlan) -> Vec<Compiled> {
    plan.compile
        .iter()
        .map(|node| Compiled {
            name: node.name.clone(),
            hash: compute_hash(sources.text(&node.path).unwrap().as_bytes()),
            class_path: format!("out/{}", artifact_name(&node.name)),
        })
        .collect()
}

fn names(plan: &BuildPlan) -> Vec<String> {
    plan.compile.iter().map(|n| n.name.clone()).collect()
}

fn a_and_b() -> Sources {
    Sources::new(&[
        ("A.java", "/* using \"B.java\" */\npublic class A { B b; }"),
        ("B.java", "public class B {}"),
    ])
}

/// Builds `A.java` and `B.java` once and returns the store afterwards.
fn first_build(sources: &Sources) -> (Graph, Vec<String>, Cache) {
    let (graph, _) = traverse(sources, "A.java", false);
    let order = topo_sort(&graph).unwrap();
    let mut cache = Cache::new();
    let plan = plan_build(&graph, &order, &cache, &observe(sources, &graph, &order, &[]), false);
    assert_eq!(names(&plan), vec!["B.java", "A.java"]);
    record_build(&mut cache, &compiled(sources, &plan));
    (graph, order, cache)
}

#[test]
fn fresh_build_without_dependencies() {
    let sources = Sources::new(&[("Main.java", "public class Main {}")]);
    let (graph, warnings) = traverse(&sources, "Main.java", false);
    assert_eq!(warnings.len(), 0);
    assert_eq!(graph.len(), 1);
    let order = topo_sort(&graph).unwrap();
    assert_eq!(order, vec!["Main.java"]);
    let mut cache = Cache::new();
    let plan = plan_build(&graph, &order, &cache, &observe(&sources, &graph, &order, &[]), false);
    assert_eq!(plan.skipped, 0);
    assert_eq!(compiler_args("out", &plan), vec!["-d", "out", "Main.java"]);
    record_build(&mut cache, &compiled(&sources, &plan));
    assert_eq!(cache.len(), 1);
    let entry: &CacheEntry = cache.get("Main.java").unwrap();
    assert_eq!(entry.hash, compute_hash(b"public class Main {}"));
    assert_eq!(entry.class_path, "out/Main.class");
}

#[test]
fn only_the_changed_file_is_rebuilt() {
    let mut sources = a_and_b();
    let (graph, order, cache) = first_build(&sources);
    sources.set("B.java", "public class B { int x; }");
    let seen = observe(&sources, &graph, &order, &["A.java", "B.java"]);
    let plan = plan_build(&graph, &order, &cache, &seen, false);
    assert_eq!(names(&plan), vec!["B.java"]);
    assert_eq!(plan.skipped, 1);
    assert_eq!(compiler_args("out", &plan), vec!["-d", "out", "B.java"]);
    assert_eq!(
        compiler_invocation("out", &plan),
        Some(vec!["-d".to_string(), "out".to_string(), "B.java".to_string()])
    );
}

#[test]
fn forced_build_compiles_everything() {
    let mut sources = a_and_b();
    let (graph, order, mut cache) = first_build(&sources);
    sources.set("B.java", "public class B { int x; }");
    let seen = observe(&sources, &graph, &order, &["A.java", "B.java"]);
    let plan = plan_build(&graph, &order, &cache, &seen, true);
    assert_eq!(names(&plan), vec!["B.java", "A.java"]);
    assert_eq!(plan.skipped, 0);
    record_build(&mut cache, &compiled(&sources, &plan));
    assert_eq!(cache.len(), 2);
    assert_eq!(cache.get("B.java").unwrap().hash, compute_hash(b"public class B { int x; }"));
    assert_eq!(
        cache.get("A.java").unwrap().hash,
        compute_hash(sources.text("A.java").unwrap().as_bytes())
    );
}

#[test]
fn second_build_compiles_nothing() {
    let sources = a_and_b();
    let (graph, order, cache) = first_build(&sources);
    let seen = observe(&sources, &graph, &order, &["A.java", "B.java"]);
    let plan = plan_build(&graph, &order, &cache, &seen, false);
    assert_eq!(plan.compile.len(), 0);
    assert_eq!(plan.skipped, 2);
    assert_eq!(compiler_invocation("out", &plan), None);
}

#[test]
fn missing_artifact_is_rebuilt() {
    let sources = a_and_b();
    let (graph, order, cache) = first_build(&sources);
    let seen = observe(&sources, &graph, &order, &["B.java"]);
    let plan = plan_build(&graph, &order, &cache, &seen, false);
    assert_eq!(names(&plan), vec!["A.java"]);
    assert_eq!(plan.skipped, 1);
}

#[test]
fn files_without_observation_are_rebuilt() {
    let sources = a_and_b();
    let (graph, order, cache) = first_build(&sources);
    let plan = plan_build(&graph, &order, &cache, &Vec::new(), false);
    assert_eq!(names(&plan), vec!["B.java", "A.java"]);
}

#[test]
fn cycle_stops_the_build() {
    let sources = Sources::new(&[
        ("A.java", "/* using \"B.java\" */\nclass A {}"),
        ("B.java", "/* using \"A.java\" */\nclass B {}"),
    ]);
    let (graph, _) = traverse(&sources, "A.java", false);
    assert_eq!(graph.len(), 2);
    let err = topo_sort(&graph).unwrap_err();
    assert!(
        err == "Circular dependency detected involving: A.java"
            || err == "Circular dependency detected involving: B.java"
    );
}

#[test]
fn self_dependency_stops_the_build() {
    let sources = Sources::new(&[("A.java", "/* using \"A.java\" */\nclass A {}")]);
    let (graph, _) = traverse(&sources, "A.java", false);
    assert_eq!(graph.len(), 1);
    assert_eq!(
        topo_sort(&graph),
        Err("Circular dependency detected involving: A.java".to_string())
    );
}

#[test]
fn dangling_dependency_is_kept_and_warned_about() {
    let sources = Sources::new(&[("Main.java", "/* using \"Missing.java\" */\nclass Main {}")]);
    let (graph, warnings) = traverse(&sources, "Main.java", false);
    assert_eq!(warnings.len(), 1);
    assert!(matches!(
        &warnings[0],
        Warning::DependencyNotFound { dependency } if dependency == "Missing.java"
    ));
    assert_eq!(graph.len(), 1);
    assert_eq!(graph.get("Main.java").unwrap().deps, vec!["Missing.java"]);
    let order = topo_sort(&graph).unwrap();
    let plan = plan_build(&graph, &order, &Cache::new(), &observe(&sources, &graph, &order, &[]), false);
    assert_eq!(compiler_args("out", &plan), vec!["-d", "out", "Main.java"]);
}

#[test]
fn implicit_dependency_is_included_on_request() {
    let sources = Sources::new(&[
        ("Main.java", "public class Main { Helper h; }"),
        ("Helper.java", "public class Helper {}"),
    ]);
    let (graph, warnings) = traverse(&sources, "Main.java", true);
    assert_eq!(warnings.len(), 1);
    assert!(matches!(
        &warnings[0],
        Warning::ImplicitDependency { file, class, included: true }
            if file == "Main.java" && class == "Helper"
    ));
    assert_eq!(graph.len(), 2);
    assert_eq!(graph.get("Main.java").unwrap().deps, vec!["Helper.java"]);
    assert_eq!(graph.get("Main.java").unwrap().implicit_deps, vec!["Helper"]);
    let order = topo_sort(&graph).unwrap();
    let plan = plan_build(&graph, &order, &Cache::new(), &observe(&sources, &graph, &order, &[]), false);
    assert_eq!(compiler_args("out", &plan), vec!["-d", "out", "Helper.java", "Main.java"]);
}

#[test]
fn implicit_dependency_is_only_warned_about_by_default() {
    let sources = Sources::new(&[
        ("Main.java", "public class Main { Helper h; }"),
        ("Helper.java", "public class Helper {}"),
    ]);
    let (graph, warnings) = traverse(&sources, "Main.java", false);
    assert_eq!(warnings.len(), 1);
    assert!(matches!(
        &warnings[0],
        Warning::ImplicitDependency { file, class, included: false }
            if file == "Main.java" && class == "Helper"
    ));
    assert_eq!(graph.len(), 1);
    assert_eq!(graph.get("Main.java").unwrap().deps.len(), 0);
    let order = topo_sort(&graph).unwrap();
    let plan = plan_build(&graph, &order, &Cache::new(), &observe(&sources, &graph, &order, &[]), false);
    assert_eq!(compiler_args("out", &plan), vec!["-d", "out", "Main.java"]);
}

#[test]
fn declared_file_is_not_included_twice() {
    let sources = Sources::new(&[
        ("Main.java", "/* using \"Helper.java\" */\npublic class Main { Helper h; Other o; }"),
        ("Helper.java", "public class Helper {}"),
        ("Other.java", "public class Other {}"),
    ]);
    let (graph, _) = traverse(&sources, "Main.java", true);
    assert_eq!(graph.get("Main.java").unwrap().deps, vec!["Helper.java", "Other.java"]);
    assert_eq!(graph.len(), 3);
}

#[test]
fn shared_dependency_is_read_once() {
    let sources = Sources::new(&[
        ("A.java", "/* using \"B.java\" using \"C.java\" */\nclass A {}"),
        ("B.java", "/* using \"C.java\" */\nclass B {}"),
        ("C.java", "class C {}"),
    ]);
    let (graph, warnings) = traverse(&sources, "A.java", false);
    assert_eq!(warnings.len(), 0);
    assert_eq!(graph.names, vec!["C.java", "B.java", "A.java"]);
    assert_eq!(topo_sort(&graph).unwrap(), vec!["C.java", "B.java", "A.java"]);
}

#[test]
fn events_that_answer_nothing_change_nothing() {
    let mut b = build_dependency_graph("A.java", "src/A.java", false);
    assert!(matches!(b.request(), Request::ReadSource { path } if path == "src/A.java"));
    b.advance(Event::Missing);
    b.advance(Event::Located { name: "B.java".to_string(), path: "B.java".to_string() });
    assert!(matches!(b.request(), Request::ReadSource { path } if path == "src/A.java"));
    b.advance(Event::Source { content: "class A {}".to_string(), siblings: Vec::new() });
    assert!(b.is_finished());
    b.advance(Event::Source { content: "/* using \"B.java\" */".to_string(), siblings: Vec::new() });
    b.advance(Event::Missing);
    assert!(b.is_finished());
    let (graph, warnings) = b.finish();
    assert_eq!(graph.len(), 1);
    assert_eq!(graph.get("A.java").unwrap().path, "src/A.java");
    assert_eq!(warnings.len(), 0);
}
