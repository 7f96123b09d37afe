use codelib2_tools::{
    gather_collection, gather_commit_info, parse_code_info, rooted_path, Collection,
};

fn lines(text: &[&str]) -> Vec<String> {
    text.iter().map(|s| s.to_string()).collect()
}

#[test]
fn quoted_includes_become_dependencies() {
    let info = parse_code_info(
        &lines(&[
            "#include \"lib/a.hpp\"",
            "#include <vector>",
            "#include\"../b.hpp\"",
            "  #include \"indented.hpp\"",
            "int main() {}",
            "#include \"x.hpp\" // \"note\"",
        ]),
        "cpp",
    );
    assert_eq!(
        info.filepath_dependencies,
        vec!["/lib/a.hpp", "/../b.hpp", "/x.hpp\" // \"note"]
    );
}

#[test]
fn other_languages_have_no_dependencies() {
    let info = parse_code_info(&lines(&["#include \"lib/a.hpp\""]), "python");
    assert!(info.filepath_dependencies.is_empty());
    let info = parse_code_info(&lines(&["#include \"lib/a.hpp\""]), "cpp ");
    assert!(info.filepath_dependencies.is_empty());
}

#[test]
fn rooted_paths_get_a_slash() {
    assert_eq!(rooted_path("src/a.hpp"), "/src/a.hpp");
    assert_eq!(rooted_path(""), "/");
}

#[test]
fn complete_path_joins_with_one_slash() {
    let c = Collection {
        base_path: "/repo".to_string(),
        source_sets: vec![],
    };
    assert_eq!(c.complete_path_str("/src/a.hpp"), "/repo/src/a.hpp");
    assert_eq!(c.complete_path_str("src/a.hpp"), "/repo/src/a.hpp");
}

#[test]
fn partitions_are_assembled_in_order() {
    let c = gather_collection(
        "/repo",
        lines(&["cpp", "py"]),
        vec![lines(&["src/cpp/a.hpp", "src/cpp/b.hpp"]), lines(&["src/py/m.py"])],
        vec![lines(&["test/cpp/t.cpp"]), lines(&[])],
    );
    assert_eq!(c.base_path, "/repo");
    assert_eq!(c.source_sets.len(), 2);
    assert_eq!(c.source_sets[0].lang, "cpp");
    assert_eq!(c.source_sets[0].src_paths, vec!["/src/cpp/a.hpp", "/src/cpp/b.hpp"]);
    assert_eq!(c.source_sets[0].test_paths, vec!["/test/cpp/t.cpp"]);
    assert_eq!(c.source_sets[1].lang, "py");
    assert_eq!(c.source_sets[1].src_paths, vec!["/src/py/m.py"]);
    assert!(c.source_sets[1].test_paths.is_empty());
}

#[test]
fn shortest_list_decides_partition_count() {
    let c = gather_collection(
        "r",
        lines(&["cpp", "py"]),
        vec![lines(&["a"])],
        vec![lines(&[]), lines(&[])],
    );
    assert_eq!(c.source_sets.len(), 1);
}

#[test]
fn commit_history_is_empty() {
    assert!(gather_commit_info("/src/a.hpp").unwrap().is_empty());
}
