use jfu::cache::{
    artifact_name, class_name, compute_hash, needs_rebuild, to_hex, Cache, CacheEntry,
};
use jfu::graph::Node;

fn node(name: &str) -> Node {
    Node { name: name.to_string(), path: name.to_string(), deps: Vec::new(), implicit_deps: Vec::new() }
}

fn cache_with(name: &str, hash: &str) -> Cache {
    let mut c = Cache::new();
    c.insert(
        name.to_string(),
        CacheEntry { hash: hash.to_string(), class_path: format!("out/{}", artifact_name(name)) },
    );
    c
}

#[test]
fn fingerprint_is_sha256_in_lowercase_hex() {
    assert_eq!(
        compute_hash(b"abc"),
        "ba7816bf8f01cfea414140de5dae2223b00361a396177a9cb410ff61f20015ad"
    );
    assert_eq!(
        compute_hash(b""),
        "e3b0c44298fc1c149afbf4c8996fb92427ae41e4649b934ca495991b7852b855"
    );
}

#[test]
fn fingerprint_depends_on_bytes_alone() {
    let a = compute_hash(b"class A {}");
    let b = compute_hash(&b"class A {}".to_vec());
    assert_eq!(a, b);
    assert_ne!(a, compute_hash(b"class A { }"));
    assert_eq!(a.len(), 64);
}

#[test]
fn artifact_names() {
    assert_eq!(class_name("Main.java"), "Main");
    assert_eq!(class_name("Main"), "Main");
    assert_eq!(class_name("Main.java.java"), "Main.java");
    assert_eq!(artifact_name("Main.java"), "Main.class");
    assert_eq!(artifact_name("Main.txt"), "Main.txt.class");
}

#[test]
fn store_replaces_entries() {
    let mut c = cache_with("A.java", "h1");
    assert_eq!(c.len(), 1);
    c.insert("A.java".to_string(), CacheEntry { hash: "h2".to_string(), class_path: "p".to_string() });
    assert_eq!(c.len(), 1);
    assert_eq!(c.get("A.java").unwrap().hash, "h2");
    assert_eq!(c.get("A.java").unwrap().class_path, "p");
    assert!(c.get("B.java").is_none());
    assert_eq!(c.names, vec!["A.java"]);
}

#[test]
fn forced_build_is_stale() {
    let c = cache_with("A.java", "h");
    assert!(needs_rebuild(&node("A.java"), &c, true, "h", true));
}

#[test]
fn missing_artifact_is_stale() {
    let c = cache_with("A.java", "h");
    assert!(needs_rebuild(&node("A.java"), &c, false, "h", false));
}

#[test]
fn missing_entry_is_stale() {
    let c = cache_with("A.java", "h");
    assert!(needs_rebuild(&node("B.java"), &c, true, "h", false));
    assert!(needs_rebuild(&node("A.java"), &Cache::new(), true, "h", false));
}

#[test]
fn changed_fingerprint_is_stale() {
    let c = cache_with("A.java", "h");
    assert!(needs_rebuild(&node("A.java"), &c, true, "other", false));
}

#[test]
fn unchanged_source_is_skipped() {
    let bytes = b"public class A {}";
    let c = cache_with("A.java", &compute_hash(bytes));
    assert!(!needs_rebuild(&node("A.java"), &c, true, &compute_hash(bytes), false));
}

#[test]
fn bytes_in_hexadecimal() {
    assert_eq!(to_hex(&vec![0x00, 0x0a, 0x14, 0x1e, 0xff, 0x9c]), "000a141eff9c");
    assert_eq!(to_hex(&Vec::new()), "");
}
