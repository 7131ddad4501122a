use jfu::docs::get_docs;

#[test]
fn test_docs_load() {
    let docs = get_docs();
    assert!(
        !docs.docs.packages.is_empty(),
        "Docs should contain packages"
    );
    assert!(!docs.classes.is_empty(), "Class index should not be empty");
    assert!(!docs.methods.is_empty(), "Method index should not be empty");
}

#[test]
fn test_class_lookup() {
    let docs = get_docs();

    let string_class = docs.get_class("String");
    assert!(string_class.is_some(), "Should find String class");

    let fq_string = docs.get_class("java.lang.String");
    assert!(fq_string.is_some(), "Should find java.lang.String");
}

#[test]
fn test_method_lookup() {
    let docs = get_docs();

    let to_string_methods = docs.get_methods("toString");
    assert!(
        !to_string_methods.is_empty(),
        "Should find toString methods"
    );
}

#[test]
fn test_class_method_lookup() {
    let docs = get_docs();

    let append_method = docs.get_class_method("StringBuilder", "append");
    assert!(
        append_method.is_some(),
        "Should find StringBuilder.append method"
    );

    if let Some(method) = append_method {
        assert!(!method.overloads.is_empty(), "append should have overloads");
    }
}

#[test]
fn test_package_lookup() {
    let docs = get_docs();

    let java_lang = docs.get_package("java.lang");
    assert!(java_lang.is_some(), "Should find java.lang package");

    if let Some(pkg) = java_lang {
        assert!(!pkg.classes.is_empty(), "java.lang should have classes");
    }
}

#[test]
fn test_search() {
    let docs = get_docs();

    let results = docs.search_classes("Array");
    assert!(!results.is_empty(), "Should find classes matching 'Array'");
}
