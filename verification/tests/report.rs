use jfu::docs::{DocsIndex, JavaDocs};
use jfu::error_format::{combined_output, format_java_errors, suggestion_group, ReportItem};
use jfu::get_docs;
use jfu::run::{entry_class, not_found, run_outcome, runtime_args};
use jfu::runtime_format::{format_runtime_errors, RuntimeItem};

fn text(s: &str) -> String {
    s.to_string()
}

#[test]
fn unknown_method_is_reported_with_suggestions() {
    let output = "./Main.java:5: error: cannot find symbol\n        sb.apend(\"x\");\n          ^\n  symbol:   method apend(String)\n  location: variable sb of type StringBuilder\n1 error\n";
    let got = format_java_errors(&get_docs(), output);
    let want = vec![
        ReportItem::Title,
        ReportItem::ErrorHeading { number: 1 },
        ReportItem::File { path: text("./Main.java") },
        ReportItem::Line { number: text("5") },
        ReportItem::Message { text: text("cannot find symbol") },
        ReportItem::Code { text: text("sb.apend(\"x\");") },
        ReportItem::Caret { text: text("  ^") },
        ReportItem::Detail { text: text("symbol:   method apend(String)") },
        ReportItem::Detail { text: text("location: variable sb of type StringBuilder") },
        ReportItem::Note { text: text("1 error") },
        ReportItem::Summary { text: text("1 error") },
        ReportItem::SuggestionsHeading,
        ReportItem::SuggestionIntro { class: text("StringBuilder"), method: text("apend") },
        ReportItem::Suggestion { signature: text("StringBuilder append(String str)") },
        ReportItem::Suggestion { signature: text("StringBuilder append(char c)") },
        ReportItem::SuggestionEnd,
        ReportItem::Hint,
    ];
    assert_eq!(got, want);
}

#[test]
fn two_errors_are_numbered() {
    let output = "A.java:1: error: ';' expected\nint x\n     ^\n\nB.java:9: error: class C not found\n  symbol: class C\n2 errors";
    let got = format_java_errors(&get_docs(), output);
    let want = vec![
        ReportItem::Title,
        ReportItem::ErrorHeading { number: 1 },
        ReportItem::File { path: text("A.java") },
        ReportItem::Line { number: text("1") },
        ReportItem::Message { text: text("';' expected") },
        ReportItem::Code { text: text("int x") },
        ReportItem::Caret { text: text("     ^") },
        ReportItem::ErrorHeading { number: 2 },
        ReportItem::File { path: text("B.java") },
        ReportItem::Line { number: text("9") },
        ReportItem::Message { text: text("class C not found") },
        ReportItem::Code { text: text("symbol: class C") },
        ReportItem::Summary { text: text("2 errors") },
        ReportItem::Hint,
    ];
    assert_eq!(got, want);
}

#[test]
fn location_by_class_is_used_without_type() {
    let output = "T.java:2: error: cannot find symbol\n  Math.sqt(2);\n      ^\n  symbol:   method sqt(int)\n  location: class Math\n";
    let got = format_java_errors(&get_docs(), output);
    assert!(got.contains(&ReportItem::SuggestionIntro { class: text("Math"), method: text("sqt") }));
    assert!(got.contains(&ReportItem::Suggestion { signature: text("static double sqrt(double a)") }));
    assert_eq!(got.last(), Some(&ReportItem::Hint));
}

#[test]
fn class_missing_from_the_index_gives_no_suggestions() {
    let output = "T.java:2: error: cannot find symbol\n  x.run();\n   ^\n  symbol:   method run()\n  location: variable x of type Unheard\n";
    let got = format_java_errors(&DocsIndex::build(JavaDocs { packages: Vec::new() }), output);
    assert!(!got.contains(&ReportItem::SuggestionsHeading));
    assert_eq!(got.last(), Some(&ReportItem::Hint));
}

#[test]
fn caret_keeps_its_place_under_the_trimmed_line() {
    let output = "T.java:2: error: x\n\t\tfoo();\n\t\t   ^\n";
    let got = format_java_errors(&get_docs(), output);
    assert!(got.contains(&ReportItem::Code { text: text("foo();") }));
    assert!(got.contains(&ReportItem::Caret { text: text("   ^") }));
    let output = "T.java:2: error: x\n    foo();\n  ^\n";
    let got = format_java_errors(&get_docs(), output);
    assert!(got.contains(&ReportItem::Caret { text: text("^") }));
}

#[test]
fn caret_line_is_no_code_line() {
    let output = "T.java:2: error: x\n   ^\n";
    let got = format_java_errors(&get_docs(), output);
    let want = vec![
        ReportItem::Title,
        ReportItem::ErrorHeading { number: 1 },
        ReportItem::File { path: text("T.java") },
        ReportItem::Line { number: text("2") },
        ReportItem::Message { text: text("x") },
        ReportItem::Hint,
    ];
    assert_eq!(got, want);
}

#[test]
fn unrecognised_output_is_reported_as_it_is() {
    let got = format_java_errors(&get_docs(), "javac: file not found: X.java\nUsage: javac <options>\n");
    let want = vec![
        ReportItem::Title,
        ReportItem::Unrecognised,
        ReportItem::Raw { text: text("javac: file not found: X.java") },
        ReportItem::Raw { text: text("Usage: javac <options>") },
    ];
    assert_eq!(got, want);
    assert_eq!(
        format_java_errors(&get_docs(), ""),
        vec![ReportItem::Title, ReportItem::Unrecognised]
    );
}

#[test]
fn no_more_than_three_signatures_are_suggested() {
    let found: Vec<(String, String)> = (1..=7).map(|i| (text("m"), format!("m({})", i))).collect();
    let got = suggestion_group("C", "n", &found);
    let want = vec![
        ReportItem::SuggestionIntro { class: text("C"), method: text("n") },
        ReportItem::Suggestion { signature: text("m(1)") },
        ReportItem::Suggestion { signature: text("m(2)") },
        ReportItem::Suggestion { signature: text("m(3)") },
        ReportItem::MoreOverloads { count: 4 },
        ReportItem::SuggestionEnd,
    ];
    assert_eq!(got, want);
    let got = suggestion_group("C", "n", &found[..3].to_vec());
    assert_eq!(got.len(), 5);
    assert_eq!(got[3], ReportItem::Suggestion { signature: text("m(3)") });
    assert_eq!(got[4], ReportItem::SuggestionEnd);
}

#[test]
fn an_error_gets_no_more_than_three_suggestions() {
    let output = "T.java:2: error: cannot find symbol\n  out.printn(1);\n     ^\n  symbol:   method printn(int)\n  location: variable out of type PrintStream\n";
    let got = format_java_errors(&get_docs(), output);
    let shown: Vec<&ReportItem> =
        got.iter().filter(|i| matches!(i, ReportItem::Suggestion { .. })).collect();
    assert_eq!(
        shown,
        vec![
            &ReportItem::Suggestion { signature: text("void println()") },
            &ReportItem::Suggestion { signature: text("void println(String x)") },
            &ReportItem::Suggestion { signature: text("void print(String s)") },
        ]
    );
    assert!(got.contains(&ReportItem::MoreOverloads { count: 2 }));
}

#[test]
fn stack_overflow_shows_ten_frames() {
    let mut output = text("Exception in thread \"main\" java.lang.StackOverflowError\n");
    for _ in 0..12 {
        output.push_str("\tat Main.f(Main.java:3)\n");
    }
    let got = format_runtime_errors(&output);
    assert_eq!(got.len(), 14);
    assert_eq!(got[0], RuntimeItem::OverflowTitle);
    assert_eq!(got[1], RuntimeItem::FramesHeading);
    for i in 0..10 {
        assert_eq!(
            got[2 + i],
            RuntimeItem::Frame { number: i + 1, text: text("at Main.f(Main.java:3)"), own: true }
        );
    }
    assert_eq!(got[12], RuntimeItem::MoreFrames { count: 2 });
    assert_eq!(got[13], RuntimeItem::OverflowHint);
}

#[test]
fn stack_overflow_without_frames() {
    let got = format_runtime_errors("java.lang.StackOverflowError");
    assert_eq!(got, vec![RuntimeItem::OverflowTitle, RuntimeItem::OverflowHint]);
}

#[test]
fn exception_is_reported_line_by_line() {
    let output = "Exception in thread \"main\" java.lang.RuntimeException: boom\n\tat Main.main(Main.java:3)\n\tat jdk.internal.Native.call(Native Method)\nCaused by: java.lang.IllegalStateException\n\n  more\n";
    let got = format_runtime_errors(output);
    let want = vec![
        RuntimeItem::ExceptionTitle,
        RuntimeItem::Exception {
            text: text("Exception in thread \"main\" java.lang.RuntimeException: boom"),
        },
        RuntimeItem::Trace { text: text("at Main.main(Main.java:3)"), own: true },
        RuntimeItem::Trace { text: text("at jdk.internal.Native.call(Native Method)"), own: false },
        RuntimeItem::Cause { text: text("Caused by: java.lang.IllegalStateException") },
        RuntimeItem::Other { text: text("more") },
        RuntimeItem::ExceptionHint,
    ];
    assert_eq!(got, want);
}

#[test]
fn exception_named_below_the_first_line() {
    let got = format_runtime_errors("Error:\nMyException occurred");
    let want = vec![
        RuntimeItem::ExceptionTitle,
        RuntimeItem::Other { text: text("Error:") },
        RuntimeItem::Other { text: text("MyException occurred") },
        RuntimeItem::ExceptionHint,
    ];
    assert_eq!(got, want);
}

#[test]
fn other_output_is_unrecognised() {
    let got = format_runtime_errors("warning: something odd\n");
    assert_eq!(got, vec![RuntimeItem::Unrecognised { text: text("warning: something odd\n") }]);
}

#[test]
fn entry_class_needs_the_extension() {
    assert_eq!(entry_class("Main.java"), Ok(text("Main")));
    assert_eq!(entry_class("Main"), Err(text("Invalid Java file: Main")));
    assert_eq!(entry_class("Main.class"), Err(text("Invalid Java file: Main.class")));
}

#[test]
fn runtime_is_invoked_with_options_before_the_class() {
    let opts = vec![text("-Xmx256m"), text("-ea")];
    assert_eq!(
        runtime_args("out", &opts, "Main.java"),
        Ok(vec![text("-cp"), text("out"), text("-Xmx256m"), text("-ea"), text("Main")])
    );
    assert_eq!(
        runtime_args("out", &Vec::new(), "Main.java"),
        Ok(vec![text("-cp"), text("out"), text("Main")])
    );
    assert_eq!(runtime_args("out", &opts, "Main"), Err(text("Invalid Java file: Main")));
}

#[test]
fn failed_run_carries_the_exit_status() {
    assert_eq!(run_outcome(true, Some(0)), Ok(()));
    assert_eq!(run_outcome(true, None), Ok(()));
    assert_eq!(run_outcome(false, Some(3)), Err(text("Program exited with status code: 3")));
    assert_eq!(run_outcome(false, Some(-7)), Err(text("Program exited with status code: -7")));
    assert_eq!(run_outcome(false, None), Err(text("Program exited with status code: -1")));
}

#[test]
fn missing_entry_file_is_named() {
    assert_eq!(not_found("X.java"), "File not found: X.java");
}

#[test]
fn compiler_output_is_joined() {
    assert_eq!(combined_output("out\n", "err\n"), "out\nerr\n");
    assert_eq!(combined_output("", "err"), "err");
    assert_eq!(combined_output("", ""), "");
}
