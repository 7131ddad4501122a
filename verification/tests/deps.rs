use jfu::deps::{
    check_implicit_dependencies, code_lines, declared_dependencies, find_class_references,
    find_identifiers, find_public_classes, parse_dependencies, select_implicit, select_references,
};

fn strings(v: &[&str]) -> Vec<String> {
    v.iter().map(|s| s.to_string()).collect()
}

#[test]
fn header_without_directive_declares_nothing() {
    assert_eq!(declared_dependencies("/*\n * A class.\n */\npublic class A {}\n").len(), 0);
    assert_eq!(declared_dependencies("/* nothing */").len(), 0);
}

#[test]
fn source_without_header_declares_nothing() {
    assert_eq!(declared_dependencies("public class Main {}\n").len(), 0);
    assert_eq!(declared_dependencies("").len(), 0);
}

#[test]
fn header_declares_in_order_with_duplicates() {
    let text = "/*\n * using \"B.java\"\n * using \"C.java\"\n * using \"B.java\"\n */\nclass A {}";
    assert_eq!(declared_dependencies(text), strings(&["B.java", "C.java", "B.java"]));
}

#[test]
fn several_directives_on_one_line() {
    let text = "/* using \"B.java\" using \"C.java\" */\nclass A {}";
    assert_eq!(declared_dependencies(text), strings(&["B.java", "C.java"]));
}

#[test]
fn directive_without_closing_quote_gives_nothing() {
    assert_eq!(declared_dependencies("/* using \"B.java */").len(), 0);
    assert_eq!(
        declared_dependencies("/*\n using \"B.java\n using \"C.java\"\n*/"),
        strings(&["C.java"])
    );
}

#[test]
fn only_the_first_comment_block_is_read() {
    let text = "/* using \"B.java\" */\n/* using \"C.java\" */\nclass A {}";
    assert_eq!(declared_dependencies(text), strings(&["B.java"]));
}

#[test]
fn directives_below_code_are_ignored() {
    let text = "class A {}\n/* using \"B.java\" */";
    assert_eq!(declared_dependencies(text).len(), 0);
}

#[test]
fn line_comments_and_blank_lines_come_before_the_header() {
    let text = "// licence\n\n   /*\n using \"B.java\"\n */\nclass A {}";
    assert_eq!(declared_dependencies(text), strings(&["B.java"]));
}

#[test]
fn a_line_comment_that_ends_like_a_block_ends_the_header() {
    let text = "// odd */\n/* using \"B.java\" */";
    assert_eq!(declared_dependencies(text).len(), 0);
}

#[test]
fn a_declared_file_hides_the_class_of_its_name_only() {
    let tokens = strings(&["X", "Y"]);
    assert_eq!(select_references(&tokens, &None, &strings(&["X.java"])), strings(&["Y"]));
    assert_eq!(select_references(&tokens, &None, &strings(&["X.java.java"])), strings(&["X", "Y"]));
    assert_eq!(select_references(&tokens, &None, &strings(&["X"])), strings(&["Y"]));
    assert_eq!(select_references(&tokens, &None, &strings(&["X.javax"])), strings(&["X", "Y"]));
}

#[test]
fn code_lines_skip_comments_and_leading_blanks() {
    let text = "\n/* head\n * more\n */\n// note\nclass A {\n\n  B b; // trailing\n}";
    assert_eq!(code_lines(text), strings(&["class A {", "", "  B b; // trailing", "}"]));
}

#[test]
fn identifiers_are_capitalised_words() {
    let lines = strings(&["  Helper h = new Helper(x_1, Other_2.y);", "int a = b;"]);
    assert_eq!(find_identifiers(&lines), strings(&["Helper", "Helper", "Other_2"]));
}

#[test]
fn identifiers_need_word_boundaries() {
    let lines = strings(&["aFoo Bar9 _Baz Q"]);
    assert_eq!(find_identifiers(&lines), strings(&["Bar9", "Q"]));
}

#[test]
fn public_classes_are_found_at_line_starts() {
    let sources = strings(&[
        "public class Helper {}\n",
        "class Hidden {}\n  public   class Second {}",
        "// public class No\nfinal public class Neither {}",
    ]);
    assert_eq!(find_public_classes(&sources), strings(&["Helper", "Second"]));
}

#[test]
fn references_leave_out_own_and_declared_classes() {
    let tokens = strings(&["Main", "Helper", "String", "Helper", "Util", "String"]);
    let got = select_references(&tokens, &Some("Main".to_string()), &strings(&["Util.java"]));
    assert_eq!(got, strings(&["Helper", "String"]));
    let got = select_references(&tokens, &None, &Vec::new());
    assert_eq!(got, strings(&["Main", "Helper", "String", "Util"]));
}

#[test]
fn implicit_dependencies_are_references_to_public_siblings() {
    let got = select_implicit(&strings(&["Helper", "String", "Util"]), &strings(&["Util", "Helper"]));
    assert_eq!(got, strings(&["Helper", "Util"]));
    assert_eq!(select_implicit(&strings(&["Helper"]), &Vec::new()).len(), 0);
}

#[test]
fn class_references_of_a_source() {
    let text = "/* using \"Util.java\" */\npublic class Main {\n  Helper h; Util u; Main m;\n}";
    assert_eq!(find_class_references(text, &strings(&["Util.java"])), strings(&["Helper"]));
}

#[test]
fn implicit_dependencies_of_a_source() {
    let main = "public class Main {\n  void f() { Helper.run(); String s; }\n}";
    let siblings = strings(&["public class Helper { static void run() {} }"]);
    assert_eq!(check_implicit_dependencies(main, &Vec::new(), &siblings), strings(&["Helper"]));
    let (declared, implicit) = parse_dependencies(main, &siblings);
    assert_eq!(declared.len(), 0);
    assert_eq!(implicit, strings(&["Helper"]));
}

#[test]
fn declared_dependencies_are_not_implicit() {
    let main = "/* using \"Helper.java\" */\npublic class Main { Helper h; }";
    let siblings = strings(&["public class Helper {}"]);
    let (declared, implicit) = parse_dependencies(main, &siblings);
    assert_eq!(declared, strings(&["Helper.java"]));
    assert_eq!(implicit.len(), 0);
}
