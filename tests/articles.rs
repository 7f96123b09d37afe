use codelib2_tools::{
    collect_code_infos, complete_articles, Collection, ParseError, SourceSets,
};

fn lines(text: &[&str]) -> Vec<String> {
    text.iter().map(|s| s.to_string()).collect()
}

fn collection() -> Collection {
    Collection {
        base_path: "/repo".to_string(),
        source_sets: vec![SourceSets {
            lang: "cpp".to_string(),
            src_paths: lines(&["/src/cpp/a.hpp", "/src/cpp/b.hpp"]),
            test_paths: lines(&["/test/cpp/a.cpp", "/test/cpp/none.cpp"]),
        }],
    }
}

fn documented(title: &str, dep: Option<&str>) -> Vec<String> {
    let mut v = vec![];
    if let Some(p) = dep {
        v.push(format!("#include \"{}\"", p));
    }
    v.extend(lines(&["// %= BEGIN DOC", "// % title"]));
    v.push(format!("// {}", title));
    v.extend(lines(&["// %= END DOC", "// %= BEGIN CODE", "int x;", "// %= END CODE"]));
    v
}

#[test]
fn articles_carry_covering_test_paths() {
    let c = collection();
    let sources = vec![vec![
        documented("A", None),
        lines(&["// %= BEGIN CODE", "int b;", "// %= END CODE"]),
    ]];
    let tests = vec![vec![
        lines(&["#include \"src/cpp/a.hpp\""]),
        lines(&["#include <iostream>"]),
    ]];
    let infos = collect_code_infos(&c, &sources, &tests).unwrap();
    assert_eq!(infos.len(), 1);
    assert_eq!(infos[0].test_code_infos[0].filepath_dependencies, vec!["/src/cpp/a.hpp"]);
    assert!(infos[0].test_code_infos[1].filepath_dependencies.is_empty());

    let done = complete_articles(&c, &infos, &sources).unwrap();
    assert_eq!(done.relations.source_relations[0][0].tested_by, vec![0]);
    assert_eq!(done.articles.len(), 1);
    let a = done.articles[0][0].as_ref().unwrap();
    assert_eq!(a.title, "A");
    assert_eq!(a.path, "/src/cpp/a.hpp");
    assert_eq!(a.lang, "cpp");
    assert_eq!(a.tested_by, vec!["/test/cpp/a.cpp"]);
    assert!(a.commits.is_empty());
    assert!(matches!(done.articles[0][1], Err(ParseError::MissingTitle)));
}

#[test]
fn transitive_include_reaches_source() {
    let c = collection();
    let sources = vec![vec![
        documented("A", None),
        documented("B", Some("src/cpp/a.hpp")),
    ]];
    let tests = vec![vec![lines(&[]), lines(&["#include \"src/cpp/b.hpp\""])]];
    let infos = collect_code_infos(&c, &sources, &tests).unwrap();
    let done = complete_articles(&c, &infos, &sources).unwrap();
    let a = done.articles[0][0].as_ref().unwrap();
    let b = done.articles[0][1].as_ref().unwrap();
    assert_eq!(a.tested_by, vec!["/test/cpp/none.cpp"]);
    assert_eq!(b.tested_by, vec!["/test/cpp/none.cpp"]);
}

#[test]
fn contents_must_match_collection() {
    let c = collection();
    let sources = vec![vec![documented("A", None)]];
    let tests = vec![vec![lines(&[]), lines(&[])]];
    assert!(collect_code_infos(&c, &sources, &tests).is_err());
    let full = vec![vec![documented("A", None), documented("B", None)]];
    let infos = collect_code_infos(&c, &full, &tests).unwrap();
    assert!(complete_articles(&c, &infos, &sources).is_err());
}
