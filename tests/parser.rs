use codelib2_tools::{parse_document, Article, Commit, ParseError, ParserInternalState, SectionAnchor};

fn lines(text: &[&str]) -> Vec<String> {
    text.iter().map(|s| s.to_string()).collect()
}

fn parse(text: &[&str]) -> Result<Article, ParseError> {
    parse_document(
        &lines(text),
        "/src/cpp/a.hpp".to_string(),
        "cpp".to_string(),
        vec![],
        vec![],
    )
}

#[test]
fn parser_snapshot_unittest_test() {
    let text = [
        "#pragma once",
        "// %= BEGIN DOC",
        "// % title",
        "// Sparse Table (Range Minimum Query)",
        "// % overview",
        "// Answers range minimum queries in O(1)",
        "// after O(N log N) preprocessing.",
        "// % usage",
        "// ```",
        "// SparseTable<int> st(v);",
        "// ```",
        "// % words",
        "// rmq, sparse table",
        "// % verified",
        "// https://judge.yosupo.jp/problem/staticrmq",
        "// % references",
        "// https://cp-algorithms.com/data_structures/sparse-table.html",
        "// %= END DOC",
        "// %= BEGIN CODE",
        "#include <vector>",
        "template <typename T> struct SparseTable {",
        "  std::vector<std::vector<T>> table;",
        "};",
        "// %= END CODE",
    ];
    let commits = vec![Commit {
        sha: "0123abc".to_string(),
        date: "2024-01-01".to_string(),
        message: "add sparse table".to_string(),
    }];
    let article = parse_document(
        &lines(&text),
        "/src/cpp/rmq_sparsetable.hpp".to_string(),
        "cpp".to_string(),
        commits,
        vec!["/test/cpp/rmq.cpp".to_string()],
    )
    .expect("Failed to parse article");
    assert_eq!(article.title, "Sparse Table (Range Minimum Query)");
    assert_eq!(
        article.overview,
        "Answers range minimum queries in O(1)\nafter O(N log N) preprocessing."
    );
    assert_eq!(
        article.code,
        "template <typename T> struct SparseTable {\n  std::vector<std::vector<T>> table;\n};"
    );
    assert_eq!(article.lang, "cpp");
    assert_eq!(article.path, "/src/cpp/rmq_sparsetable.hpp");
    assert_eq!(article.require, None);
    assert_eq!(article.words, vec!["rmq", "sparse", "table"]);
    assert_eq!(
        article.verified,
        vec!["https://judge.yosupo.jp/problem/staticrmq"]
    );
    assert_eq!(
        article.references,
        vec!["https://cp-algorithms.com/data_structures/sparse-table.html"]
    );
    assert_eq!(article.commits.len(), 1);
    assert_eq!(article.commits[0].sha, "0123abc");
    assert_eq!(article.tested_by, vec!["/test/cpp/rmq.cpp"]);
}

#[test]
fn minimal_round_trip() {
    let article = parse(&[
        "// %= BEGIN DOC",
        "// % title",
        "// T",
        "// %= END DOC",
        "// %= BEGIN CODE",
        "   int x = 1;   ",
        "// %= END CODE",
    ])
    .unwrap();
    assert_eq!(article.title, "T");
    assert_eq!(article.code, "int x = 1;");
    assert_eq!(article.overview, "");
    assert_eq!(article.require, None);
    assert!(article.references.is_empty());
    assert!(article.words.is_empty());
    assert!(article.verified.is_empty());
    assert!(article.commits.is_empty());
    assert!(article.tested_by.is_empty());
}

#[test]
fn missing_title_fails() {
    let r = parse(&["// %= BEGIN CODE", "int x;", "// %= END CODE"]);
    assert!(matches!(r, Err(ParseError::MissingTitle)));
    let r = parse(&[
        "# %= BEGIN DOC",
        "# % overview",
        "# no title here",
        "# %= END DOC",
        "# %= BEGIN CODE",
        "x = 1",
        "# %= END CODE",
    ]);
    assert!(matches!(r, Err(ParseError::MissingTitle)));
}

#[test]
fn empty_code_fails() {
    let r = parse(&["// %= BEGIN DOC", "// % title", "// T", "// %= END DOC"]);
    assert!(matches!(r, Err(ParseError::EmptyCode)));
}

#[test]
fn unclosed_block_fails() {
    let r = parse(&[
        "// %= BEGIN CODE",
        "int x;",
        "// %= END CODE",
        "// %= BEGIN DOC",
        "// % title",
        "// T",
    ]);
    assert!(matches!(r, Err(ParseError::UnclosedBlock)));
}

#[test]
fn nested_block_fails() {
    let r = parse(&["// %= BEGIN DOC", "// %= BEGIN DOC"]);
    assert!(matches!(r, Err(ParseError::NestedBlockAnchor)));
    let r = parse(&["// %= BEGIN CODE", "// %= BEGIN DOC"]);
    assert!(matches!(r, Err(ParseError::NestedBlockAnchor)));
}

#[test]
fn unknown_directive_fails() {
    let r = parse(&["// %=   BEGIN NOTES  "]);
    match r {
        Err(ParseError::UnknownDirective(name)) => assert_eq!(name, "BEGIN NOTES"),
        _ => panic!("expected an unknown directive"),
    }
    let e = ParseError::UnknownDirective("X".to_string());
    assert_eq!(e.message(), "Unknown block anchor: X");
    assert_eq!(ParseError::MissingTitle.message(), "Title is required");
}

#[test]
fn fenced_text_is_kept_verbatim() {
    let article = parse(&[
        "// %= BEGIN DOC",
        "// % title",
        "// T",
        "// % overview",
        "// ```",
        "// % not a section",
        "//   %= END DOC",
        "int y;",
        "// ```",
        "// after",
        "// %= END DOC",
        "// %= BEGIN CODE",
        "int x;",
        "// %= END CODE",
    ])
    .unwrap();
    assert_eq!(
        article.overview,
        "// % not a section\n//   %= END DOC\nint y;\nafter"
    );
    assert_eq!(article.title, "T");
    assert_eq!(article.code, "int x;");
}

#[test]
fn words_split_on_commas_references_do_not() {
    let article = parse(&[
        "// %= BEGIN DOC",
        "// % title",
        "// T",
        "// % words",
        "// a, b\tc",
        "// % references",
        "// a, b\tc",
        "// % verified",
        "// a, b\tc",
        "// %= END DOC",
        "// %= BEGIN CODE",
        "int x;",
        "// %= END CODE",
    ])
    .unwrap();
    assert_eq!(article.words, vec!["a", "b", "c"]);
    assert_eq!(article.references, vec!["a,", "b", "c"]);
    assert_eq!(article.verified, vec!["a,", "b", "c"]);
}

#[test]
fn later_section_overrides_and_unknown_is_hidden() {
    let article = parse(&[
        "## %= BEGIN DOC",
        "## %% title",
        "## first",
        "## % custom",
        "## hidden",
        "## % title  ",
        "##   second  ",
        "## % require",
        "## C++17",
        "## %= END DOC",
        "## %= BEGIN CODE",
        "print(1)",
        "## %= END CODE",
    ])
    .unwrap();
    assert_eq!(article.title, "second");
    assert_eq!(article.require, Some("C++17".to_string()));
    assert_eq!(article.overview, "");
}

#[test]
fn indented_comment_lines_are_comments() {
    let article = parse(&[
        "  // %= BEGIN DOC",
        "\t// % title",
        "    //    Indented",
        "// %= END DOC",
        "// %= BEGIN CODE",
        "int a;",
        "    // a note",
        "int b;",
        "// %= END CODE",
    ])
    .unwrap();
    assert_eq!(article.title, "Indented");
    assert_eq!(article.code, "int a;\nint b;");
}

#[test]
fn line_by_line_state() {
    let mut state = ParserInternalState::new();
    for line in ["// %= BEGIN DOC", "// % title", "// Stepwise", "// %= END DOC"] {
        state.parse_line(line).unwrap();
    }
    state.parse_line("// %= BEGIN CODE").unwrap();
    state.parse_line("fn f() {}").unwrap();
    state.parse_line("// %= END CODE").unwrap();
    state.finish_anchor();
    let article = state
        .generate_article("/p".to_string(), "rust".to_string(), vec![], vec![])
        .unwrap();
    assert_eq!(article.title, "Stepwise");
    assert_eq!(article.code, "fn f() {}");
}

#[test]
fn section_names() {
    assert!(matches!(SectionAnchor::from_str("title"), Some(SectionAnchor::Title)));
    assert!(matches!(SectionAnchor::from_str("words"), Some(SectionAnchor::Words)));
    assert!(SectionAnchor::from_str("Title").is_none());
}
