use codelib2_tools::{
    file_count, solve_relation, CodeInfo, CodeInfoSets, Collection, SourceSets,
};

fn strings(v: &[&str]) -> Vec<String> {
    v.iter().map(|s| s.to_string()).collect()
}

fn info(deps: &[&str]) -> CodeInfo {
    CodeInfo {
        filepath_dependencies: strings(deps),
    }
}

fn one_partition(srcs: &[&str], tests: &[&str]) -> Collection {
    Collection {
        base_path: "test".to_string(),
        source_sets: vec![SourceSets {
            lang: "cpp".to_string(),
            src_paths: strings(srcs),
            test_paths: strings(tests),
        }],
    }
}

#[test]
fn unittest_test() {
    let collection = Collection {
        base_path: "test".to_string(),
        source_sets: vec![SourceSets {
            lang: "cpp".to_string(),
            src_paths: vec![
                "src/a/x.hpp".to_string(),
                "src/a/y.hpp".to_string(),
                "src/b/x.hpp".to_string(),
                "src/b/y.hpp".to_string(),
            ],
            test_paths: vec!["test/1.cpp".to_string(), "test/2.cpp".to_string()],
        }],
    };
    let code_info_sets = vec![CodeInfoSets {
        lang: "cpp".to_string(),
        src_code_infos: vec![
            CodeInfo {
                filepath_dependencies: vec![],
            },
            CodeInfo {
                filepath_dependencies: vec!["src/a/x.hpp".to_string()],
            },
            CodeInfo {
                filepath_dependencies: vec!["src/a/x.hpp".to_string()],
            },
            CodeInfo {
                filepath_dependencies: vec!["src/a/x.hpp".to_string(), "src/b/x.hpp".to_string()],
            },
        ],
        test_code_infos: vec![
            CodeInfo {
                filepath_dependencies: vec!["src/a/x.hpp".to_string()],
            },
            CodeInfo {
                filepath_dependencies: vec!["src/b/y.hpp".to_string()],
            },
        ],
    }];
    let relations = solve_relation(&collection, &code_info_sets).unwrap();
    assert_eq!(relations.source_relations.len(), 1);

    let source_relation = &relations.source_relations[0];
    assert_eq!(source_relation.len(), 4);
    assert_eq!(source_relation[1].tested_by, vec![] as Vec<usize>);
    assert_eq!(source_relation[2].tested_by, vec![1]);
    assert_eq!(source_relation[3].tested_by, vec![1]);
    assert_eq!(source_relation[0].tested_by, vec![0, 1]);
}

#[test]
fn diamond_dependency() {
    let collection = one_partition(&["/x", "/y"], &["/t1", "/t2"]);
    let infos = vec![CodeInfoSets {
        lang: "cpp".to_string(),
        src_code_infos: vec![info(&[]), info(&["/x"])],
        test_code_infos: vec![info(&["/x"]), info(&["/y"])],
    }];
    let relations = solve_relation(&collection, &infos).unwrap();
    let rels = &relations.source_relations[0];
    assert_eq!(rels[0].tested_by, vec![0, 1]);
    assert_eq!(rels[1].tested_by, vec![1]);
}

#[test]
fn cycle_terminates_and_marks_once() {
    let collection = one_partition(&["/a", "/b"], &["/t"]);
    let infos = vec![CodeInfoSets {
        lang: "cpp".to_string(),
        src_code_infos: vec![info(&["/b"]), info(&["/a"])],
        test_code_infos: vec![info(&["/a"])],
    }];
    let relations = solve_relation(&collection, &infos).unwrap();
    let rels = &relations.source_relations[0];
    assert_eq!(rels[0].tested_by, vec![0]);
    assert_eq!(rels[1].tested_by, vec![0]);
}

#[test]
fn self_loop_terminates() {
    let collection = one_partition(&["/a"], &["/t"]);
    let infos = vec![CodeInfoSets {
        lang: "cpp".to_string(),
        src_code_infos: vec![info(&["/a"])],
        test_code_infos: vec![info(&["/t", "/a"])],
    }];
    let relations = solve_relation(&collection, &infos).unwrap();
    assert_eq!(relations.source_relations[0][0].tested_by, vec![0]);
}

#[test]
fn other_partition_does_not_count() {
    let collection = Collection {
        base_path: "/repo".to_string(),
        source_sets: vec![
            SourceSets {
                lang: "cpp".to_string(),
                src_paths: strings(&["/src/cpp/s.hpp"]),
                test_paths: strings(&["/test/cpp/t.cpp"]),
            },
            SourceSets {
                lang: "py".to_string(),
                src_paths: strings(&["/src/py/s.py"]),
                test_paths: strings(&["/test/py/t.py"]),
            },
        ],
    };
    let infos = vec![
        CodeInfoSets {
            lang: "cpp".to_string(),
            src_code_infos: vec![info(&[])],
            test_code_infos: vec![info(&["/src/py/s.py", "/src/cpp/s.hpp"])],
        },
        CodeInfoSets {
            lang: "py".to_string(),
            src_code_infos: vec![info(&[])],
            test_code_infos: vec![info(&[])],
        },
    ];
    let relations = solve_relation(&collection, &infos).unwrap();
    assert_eq!(relations.source_relations.len(), 2);
    assert_eq!(relations.source_relations[0][0].tested_by, vec![0]);
    assert_eq!(relations.source_relations[1][0].tested_by, vec![] as Vec<usize>);
}

#[test]
fn traversal_passes_through_tests_and_other_partitions() {
    let collection = Collection {
        base_path: "/repo".to_string(),
        source_sets: vec![
            SourceSets {
                lang: "cpp".to_string(),
                src_paths: strings(&["/a", "/b"]),
                test_paths: strings(&["/t", "/helper"]),
            },
            SourceSets {
                lang: "py".to_string(),
                src_paths: strings(&["/bridge"]),
                test_paths: strings(&[]),
            },
        ],
    };
    let infos = vec![
        CodeInfoSets {
            lang: "cpp".to_string(),
            src_code_infos: vec![info(&[]), info(&[])],
            test_code_infos: vec![info(&["/helper", "/missing"]), info(&["/bridge"])],
        },
        CodeInfoSets {
            lang: "py".to_string(),
            src_code_infos: vec![info(&["/a"])],
            test_code_infos: vec![],
        },
    ];
    let relations = solve_relation(&collection, &infos).unwrap();
    assert_eq!(relations.source_relations[0][0].tested_by, vec![0, 1]);
    assert_eq!(relations.source_relations[0][1].tested_by, vec![] as Vec<usize>);
    assert_eq!(relations.source_relations[1][0].tested_by, vec![] as Vec<usize>);
}

#[test]
fn duplicate_path_resolves_to_last_entry() {
    let collection = one_partition(&["/dup", "/dup"], &["/t"]);
    let infos = vec![CodeInfoSets {
        lang: "cpp".to_string(),
        src_code_infos: vec![info(&[]), info(&[])],
        test_code_infos: vec![info(&["/dup"])],
    }];
    let relations = solve_relation(&collection, &infos).unwrap();
    assert_eq!(relations.source_relations[0][0].tested_by, vec![] as Vec<usize>);
    assert_eq!(relations.source_relations[0][1].tested_by, vec![0]);
}

#[test]
fn partition_count_mismatch_fails() {
    let collection = one_partition(&["/a"], &["/t"]);
    let infos: Vec<CodeInfoSets> = vec![];
    assert!(solve_relation(&collection, &infos).is_err());
}

#[test]
fn language_mismatch_fails() {
    let collection = one_partition(&["/a"], &["/t"]);
    let infos = vec![CodeInfoSets {
        lang: "py".to_string(),
        src_code_infos: vec![info(&[])],
        test_code_infos: vec![info(&[])],
    }];
    assert!(solve_relation(&collection, &infos).is_err());
}

#[test]
fn file_count_mismatch_fails() {
    let collection = one_partition(&["/a", "/b"], &["/t"]);
    let infos = vec![CodeInfoSets {
        lang: "cpp".to_string(),
        src_code_infos: vec![info(&[])],
        test_code_infos: vec![info(&[])],
    }];
    assert!(solve_relation(&collection, &infos).is_err());
}

#[test]
fn counts_every_file() {
    let collection = one_partition(&["/a", "/b"], &["/t"]);
    assert_eq!(file_count(&collection), Some(3));
}
