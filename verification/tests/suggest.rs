use jfu::docs::{Class, DocsIndex, JavaDocs, Method, Overload, Package};
use jfu::get_docs;
use jfu::suggest::{
    edit_distance, find_matching, get_class_suggestions, get_method_suggestions,
    get_method_suggestions_with_signatures, suggest_names,
};

fn method(name: &str, signatures: &[&str]) -> Method {
    Method {
        name: name.to_string(),
        overloads: signatures
            .iter()
            .map(|s| Overload { signature: s.to_string(), description: String::new(), deprecated: false })
            .collect(),
    }
}

fn index(methods: Vec<Method>) -> DocsIndex {
    DocsIndex::build(JavaDocs {
        packages: vec![Package {
            package: "demo".to_string(),
            description: String::new(),
            classes: vec![Class { name: "Thing".to_string(), methods }],
        }],
    })
}

#[test]
fn edit_distances() {
    assert_eq!(edit_distance("kitten", "sitting"), 3);
    assert_eq!(edit_distance("flaw", "lawn"), 2);
    assert_eq!(edit_distance("", "abc"), 3);
    assert_eq!(edit_distance("abc", ""), 3);
    assert_eq!(edit_distance("", ""), 0);
    assert_eq!(edit_distance("same", "same"), 0);
    assert_eq!(edit_distance("a", "b"), 1);
    assert_eq!(edit_distance("héllo", "hello"), 1);
}

#[test]
fn edit_distance_is_symmetric_on_examples() {
    for (a, b) in [("append", "apend"), ("size", "length"), ("x", "")] {
        assert_eq!(edit_distance(a, b), edit_distance(b, a));
    }
}

#[test]
fn case_mismatch_is_suggested_first() {
    let methods = vec![method("tostring", &["a"]), method("toString", &["b"]), method("toStrin", &["c"])];
    assert_eq!(suggest_names(&methods, "ToString"), vec!["tostring", "toString"]);
    assert_eq!(suggest_names(&methods, "toString"), vec!["tostring"]);
}

#[test]
fn nearest_names_are_suggested_closest_first() {
    let methods = vec![
        method("appendix", &["a"]),
        method("apend", &["b"]),
        method("append", &["c"]),
        method("size", &["d"]),
        method("appenx", &["e"]),
    ];
    assert_eq!(suggest_names(&methods, "append"), vec!["append", "apend", "appenx", "appendix"]);
}

#[test]
fn at_most_five_names_are_suggested() {
    let methods: Vec<Method> =
        ["ab", "ac", "ad", "ae", "af", "ag", "a"].iter().map(|n| method(n, &["s"])).collect();
    assert_eq!(suggest_names(&methods, "aa"), vec!["ab", "ac", "ad", "ae", "af"]);
}

#[test]
fn unknown_class_has_no_suggestions() {
    let docs = index(vec![method("run", &["void run()"])]);
    assert_eq!(get_method_suggestions(&docs, "Nothing", "run").len(), 0);
    assert_eq!(get_method_suggestions_with_signatures(&docs, "Nothing", "run").len(), 0);
}

#[test]
fn distant_names_are_not_suggested() {
    let docs = index(vec![method("run", &["void run()"])]);
    assert_eq!(get_method_suggestions(&docs, "Thing", "compute").len(), 0);
    assert_eq!(get_method_suggestions_with_signatures(&docs, "Thing", "compute").len(), 0);
}

#[test]
fn case_mismatch_gives_every_signature() {
    let docs = index(vec![method("add", &["add(a)", "add(a, b)", "add(a, b, c)"]), method("ad", &["ad()"])]);
    let got = get_method_suggestions_with_signatures(&docs, "Thing", "ADD");
    let want: Vec<(String, String)> = ["add(a)", "add(a, b)", "add(a, b, c)"]
        .iter()
        .map(|s| ("add".to_string(), s.to_string()))
        .collect();
    assert_eq!(got, want);
}

#[test]
fn near_names_give_two_signatures_of_three_methods() {
    let docs = index(vec![
        method("adds", &["adds(1)", "adds(2)", "adds(3)"]),
        method("add", &["add(1)"]),
        method("addx", &["addx(1)", "addx(2)"]),
        method("addy", &["addy(1)"]),
    ]);
    let got = get_method_suggestions_with_signatures(&docs, "Thing", "add");
    let want: Vec<(String, String)> = [
        ("add", "add(1)"),
        ("adds", "adds(1)"),
        ("adds", "adds(2)"),
        ("addx", "addx(1)"),
        ("addx", "addx(2)"),
    ]
    .iter()
    .map(|(n, s)| (n.to_string(), s.to_string()))
    .collect();
    assert_eq!(got, want);
}

#[test]
fn builtin_catalogue_suggests_println() {
    let docs = get_docs();
    let got = get_method_suggestions(&docs, "PrintStream", "printn");
    assert_eq!(got, vec!["println", "print", "printf"]);
    let got = get_method_suggestions(&docs, "String", "LENGTH");
    assert_eq!(got, vec!["length"]);
}

#[test]
fn class_suggestions_ignore_case() {
    let docs = get_docs();
    let got = get_class_suggestions(&docs, "ARRAYL");
    assert_eq!(got, vec!["java.util.ArrayList", "ArrayList"]);
    assert_eq!(get_class_suggestions(&docs, "nothing like this").len(), 0);
    assert!(get_class_suggestions(&docs, "a").len() == 5);
}

#[test]
fn index_lists_a_later_class_under_a_shared_name() {
    let docs = DocsIndex::build(JavaDocs {
        packages: vec![
            Package {
                package: "a".to_string(),
                description: String::new(),
                classes: vec![Class { name: "List".to_string(), methods: vec![method("one", &["1"])] }],
            },
            Package {
                package: "b".to_string(),
                description: String::new(),
                classes: vec![Class { name: "List".to_string(), methods: vec![method("two", &["2"])] }],
            },
        ],
    });
    assert_eq!(docs.get_class("List").unwrap().methods[0].name, "two");
    assert_eq!(docs.get_class("a.List").unwrap().methods[0].name, "one");
    let (package, class) = docs.get_class_with_package("b.List").unwrap();
    assert_eq!(package.package, "b");
    assert_eq!(class.name, "List");
    assert_eq!(docs.class_names, vec!["a.List", "List", "b.List"]);
    assert_eq!(docs.get_methods("one").len(), 1);
    assert_eq!(docs.get_methods("three").len(), 0);
    assert!(docs.get_class_method("List", "one").is_none());
    assert_eq!(docs.get_class_method("List", "two").unwrap().overloads[0].signature, "2");
    assert!(docs.get_package("c").is_none());
    assert_eq!(docs.get_package("a").unwrap().classes.len(), 1);
    let found: Vec<String> = docs.search_classes("LIST").into_iter().map(|(n, _)| n).collect();
    assert_eq!(found, vec!["a.List", "List", "b.List"]);
}

#[test]
fn methods_are_listed_in_catalogue_order() {
    let docs = get_docs();
    let found = docs.get_methods("toString");
    let classes: Vec<&str> = found.iter().map(|(_, c, _)| c.name.as_str()).collect();
    assert_eq!(classes, vec!["Object", "String", "StringBuilder", "Integer", "ArrayList", "Arrays"]);
    assert_eq!(found[0].0.package, "java.lang");
    assert_eq!(found[5].0.package, "java.util");
}

#[test]
fn methods_are_matched_by_part_of_their_name() {
    let methods = vec![method("indexOf", &["a"]), method("lastIndexOf", &["b"]), method("size", &["c"])];
    assert_eq!(find_matching(&methods, Some("INDEX")), vec![0, 1]);
    assert_eq!(find_matching(&methods, Some("last")), vec![1]);
    assert_eq!(find_matching(&methods, Some("none")), Vec::<usize>::new());
    assert_eq!(find_matching(&methods, None), vec![0, 1, 2]);
}
