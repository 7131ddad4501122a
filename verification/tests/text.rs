use jfu::text::{
    chars_of, contains, decimal, ends_with, find, first_word, rfind, signed_decimal, split_lines,
    starts_with, str_eq, string_of, trim, trim_start,
};

fn s(v: &Vec<char>) -> String {
    v.iter().collect()
}

#[test]
fn chars_and_back() {
    let v = chars_of("héllo");
    assert_eq!(v, vec!['h', 'é', 'l', 'l', 'o']);
    assert_eq!(string_of(&v), "héllo");
    assert_eq!(string_of(&Vec::new()), "");
}

#[test]
fn lines_split_at_line_feeds() {
    let lines = split_lines(&chars_of("a\nb\r\n\nc"));
    let got: Vec<String> = lines.iter().map(s).collect();
    assert_eq!(got, vec!["a", "b", "", "c"]);
}

#[test]
fn lines_drop_no_bare_carriage_return() {
    let lines = split_lines(&chars_of("a\rb\nc\r"));
    let got: Vec<String> = lines.iter().map(s).collect();
    assert_eq!(got, vec!["a\rb", "c\r"]);
}

#[test]
fn lines_of_empty_text_and_final_line_feed() {
    assert_eq!(split_lines(&chars_of("")).len(), 0);
    let lines = split_lines(&chars_of("x\n"));
    assert_eq!(lines.len(), 1);
    assert_eq!(s(&lines[0]), "x");
    let lines = split_lines(&chars_of("\n"));
    assert_eq!(lines.len(), 1);
    assert_eq!(s(&lines[0]), "");
}

#[test]
fn lines_agree_with_std() {
    for text in ["", "a", "a\n", "a\n\nb", "\r\n", "a\r\n\r\nb\r", "x\ny\n\n"] {
        let got: Vec<String> = split_lines(&chars_of(text)).iter().map(s).collect();
        let want: Vec<String> = text.lines().map(|l| l.to_string()).collect();
        assert_eq!(got, want);
    }
}

#[test]
fn trim_removes_unicode_white_space() {
    assert_eq!(s(&trim(&chars_of("  \t a b \u{a0}\u{3000}\n"))), "a b");
    assert_eq!(s(&trim(&chars_of("   "))), "");
    assert_eq!(s(&trim(&chars_of(""))), "");
    assert_eq!(s(&trim_start(&chars_of(" \u{2003}x "))), "x ");
}

#[test]
fn trim_agrees_with_std() {
    for text in ["", " ", "a", " a", "a ", "\u{85}a\u{1680}", "\u{200b}a", "\u{feff}a "] {
        assert_eq!(s(&trim(&chars_of(text))), text.trim());
        assert_eq!(s(&trim_start(&chars_of(text))), text.trim_start());
    }
}

#[test]
fn search_finds_first_and_last() {
    let hay = chars_of("abcabc");
    assert_eq!(find(&hay, &chars_of("bc")), Some(1));
    assert_eq!(find(&hay, &chars_of("cb")), None);
    assert_eq!(find(&hay, &chars_of("")), Some(0));
    assert_eq!(find(&chars_of(""), &chars_of("")), Some(0));
    assert_eq!(find(&chars_of("ab"), &chars_of("abc")), None);
    assert_eq!(rfind(&hay, 'b'), Some(4));
    assert_eq!(rfind(&hay, 'x'), None);
    assert!(contains(&hay, &chars_of("ca")));
    assert!(!contains(&hay, &chars_of("cc")));
}

#[test]
fn prefixes_and_suffixes() {
    let hay = chars_of("/* x */");
    assert!(starts_with(&hay, &chars_of("/*")));
    assert!(!starts_with(&hay, &chars_of("//")));
    assert!(ends_with(&hay, &chars_of("*/")));
    assert!(!ends_with(&chars_of("/"), &chars_of("*/")));
    assert!(starts_with(&hay, &chars_of("")));
}

#[test]
fn first_word_is_delimited_by_white_space() {
    assert_eq!(s(&first_word(&chars_of("  Foo bar"))), "Foo");
    assert_eq!(s(&first_word(&chars_of("Foo"))), "Foo");
    assert_eq!(s(&first_word(&chars_of("   "))), "");
}

#[test]
fn strings_compare_by_characters() {
    assert!(str_eq("abc", "abc"));
    assert!(!str_eq("abc", "abd"));
    assert!(!str_eq("abc", "ab"));
    assert!(str_eq("", ""));
    assert!(!str_eq("é", "e"));
}

#[test]
fn numerals() {
    assert_eq!(s(&decimal(0)), "0");
    assert_eq!(s(&decimal(7)), "7");
    assert_eq!(s(&decimal(1203)), "1203");
    assert_eq!(s(&decimal(u64::MAX)), "18446744073709551615");
    assert_eq!(s(&signed_decimal(-1)), "-1");
    assert_eq!(s(&signed_decimal(42)), "42");
    assert_eq!(s(&signed_decimal(i64::MIN)), "-9223372036854775808");
}
