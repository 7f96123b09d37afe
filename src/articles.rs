//! Assembling the articles of a whole collection: dependencies are solved
//! into coverage, and every source file is parsed with the paths of the
//! tests that reach it.
use vstd::prelude::*;

use crate::code_info::{code_deps, parse_code_info};
use crate::codelib::{Article, CodeInfo, CodeInfoSets, Collection, Commit};
use crate::parser::{document_of, outcome_view, parse_document, ParseError};
use crate::relation_solver::{
    aligned, n_langs, node_count, solution, solve_relation, src_len, test_len, Relations,
};
use crate::repo_collector::gather_commit_info;
use crate::text::string_views;

verus! {

/// The coverage of every source file, and the outcome of parsing each.
pub struct CompletedArticles {
    pub relations: Relations,
    /// `articles[l][k]` is the outcome for source `k` of partition `l`.
    pub articles: Vec<Vec<Result<Article, ParseError>>>,
}

/// `sources[l][k]` are the lines of source file `k` of partition `l`.
pub open spec fn sources_match(c: Collection, sources: Seq<Vec<Vec<String>>>) -> bool {
    &&& sources.len() == n_langs(c)
    &&& forall|l: int| 0 <= l < sources.len() ==> #[trigger] sources[l]@.len() == src_len(c, l)
}

/// `tests[l][k]` are the lines of test file `k` of partition `l`.
pub open spec fn tests_match(c: Collection, tests: Seq<Vec<Vec<String>>>) -> bool {
    &&& tests.len() == n_langs(c)
    &&& forall|l: int| 0 <= l < tests.len() ==> #[trigger] tests[l]@.len() == test_len(c, l)
}

/// Each entry of `infos` holds the dependencies of the file of `files` at
/// the same position, for language `lang`.
pub open spec fn infos_of(lang: Seq<char>, files: Seq<Vec<String>>, infos: Seq<CodeInfo>) -> bool {
    &&& infos.len() == files.len()
    &&& forall|k: int|
        0 <= k < files.len() ==> string_views(#[trigger] infos[k].filepath_dependencies@)
            == code_deps(lang, string_views(files[k]@))
}

/// The dependencies of every file of `files`, in order.
fn code_infos(files: &Vec<Vec<String>>, lang: &String) -> (r: Vec<CodeInfo>)
    ensures
        infos_of(lang@, files@, r@),
{
    let mut r: Vec<CodeInfo> = Vec::new();
    let mut k: usize = 0;
    while k < files.len()
        invariant
            k <= files.len(),
            r@.len() == k,
            forall|k2: int|
                0 <= k2 < k ==> string_views(#[trigger] r@[k2].filepath_dependencies@) == code_deps(
                    lang@,
                    string_views(files@[k2]@),
                ),
        decreases files.len() - k,
    {
        r.push(parse_code_info(&files[k], lang.as_str()));
        k += 1;
    }
    r
}

/// The dependency information of every file of `collection`, from the lines
/// of its source files (`sources[l][k]`) and of its test files
/// (`tests[l][k]`). Fails where those do not line up with the collection.
pub fn collect_code_infos(
    collection: &Collection,
    sources: &Vec<Vec<Vec<String>>>,
    tests: &Vec<Vec<Vec<String>>>,
) -> (r: Result<Vec<CodeInfoSets>, String>)
    ensures
        match r {
            Ok(infos) => {
                &&& sources_match(*collection, sources@)
                &&& tests_match(*collection, tests@)
                &&& aligned(*collection, infos@)
                &&& forall|l: int|
                    #![trigger infos@[l]]
                    0 <= l < infos@.len() ==> {
                        &&& infos_of(
                            collection.source_sets@[l].lang@,
                            sources@[l]@,
                            infos@[l].src_code_infos@,
                        )
                        &&& infos_of(
                            collection.source_sets@[l].lang@,
                            tests@[l]@,
                            infos@[l].test_code_infos@,
                        )
                    }
            },
            Err(_) => !sources_match(*collection, sources@) || !tests_match(*collection, tests@),
        },
{
    let ghost c = *collection;
    let nl = collection.source_sets.len();
    if sources.len() != nl || tests.len() != nl {
        return Err(String::from_str("File contents do not match the partitions of the collection"));
    }
    let mut infos: Vec<CodeInfoSets> = Vec::new();
    let mut l: usize = 0;
    while l < nl
        invariant
            nl == n_langs(c),
            c == *collection,
            sources@.len() == nl,
            tests@.len() == nl,
            l <= nl,
            infos@.len() == l,
            forall|i: int| 0 <= i < l ==> #[trigger] sources@[i]@.len() == src_len(c, i),
            forall|i: int| 0 <= i < l ==> #[trigger] tests@[i]@.len() == test_len(c, i),
            forall|i: int|
                #![trigger infos@[i]]
                0 <= i < l ==> {
                    &&& infos@[i].lang@ == c.source_sets@[i].lang@
                    &&& infos@[i].src_code_infos@.len() == src_len(c, i)
                    &&& infos@[i].test_code_infos@.len() == test_len(c, i)
                    &&& infos_of(c.source_sets@[i].lang@, sources@[i]@, infos@[i].src_code_infos@)
                    &&& infos_of(c.source_sets@[i].lang@, tests@[i]@, infos@[i].test_code_infos@)
                },
        decreases nl - l,
    {
        let set = &collection.source_sets[l];
        if sources[l].len() != set.src_paths.len() || tests[l].len() != set.test_paths.len() {
            return Err(String::from_str("File contents do not match the files of the collection"));
        }
        let src_code_infos = code_infos(&sources[l], &set.lang);
        let test_code_infos = code_infos(&tests[l], &set.lang);
        infos.push(CodeInfoSets { lang: set.lang.clone(), src_code_infos, test_code_infos });
        l += 1;
    }
    Ok(infos)
}

/// The paths of the tests of partition `l` with indices `t`.
pub open spec fn test_paths_of(c: Collection, l: int, t: Seq<usize>) -> Seq<Seq<char>> {
    paths_at(c.source_sets@[l].test_paths@, t)
}

/// What parsing source `k` of partition `l` yields, with `t` as its covering tests.
pub open spec fn article_outcome(
    c: Collection,
    sources: Seq<Vec<Vec<String>>>,
    l: int,
    k: int,
    t: Seq<usize>,
) -> Result<crate::codelib::ArticleModel, crate::parser::ParseFailure> {
    document_of(
        string_views(sources[l]@[k]@),
        c.source_sets@[l].src_paths@[k]@,
        c.source_sets@[l].lang@,
        seq![],
        test_paths_of(c, l, t),
    )
}

/// The entries of `paths` at the indices `t`, in order.
pub open spec fn paths_at(paths: Seq<String>, t: Seq<usize>) -> Seq<Seq<char>> {
    t.map_values(|j: usize| paths[j as int]@)
}

/// The paths of the tests of `test_paths` with indices `tested_by`.
fn tested_by_paths(test_paths: &Vec<String>, tested_by: &Vec<usize>) -> (r: Vec<String>)
    requires
        forall|a: int| 0 <= a < tested_by@.len() ==> #[trigger] tested_by@[a] < test_paths@.len(),
    ensures
        string_views(r@) == paths_at(test_paths@, tested_by@),
{
    let mut r: Vec<String> = Vec::new();
    let mut a: usize = 0;
    while a < tested_by.len()
        invariant
            a <= tested_by.len(),
            forall|b: int| 0 <= b < tested_by@.len() ==> #[trigger] tested_by@[b] < test_paths@.len(),
            string_views(r@) == paths_at(test_paths@, tested_by@.take(a as int)),
        decreases tested_by.len() - a,
    {
        let p = test_paths[tested_by[a]].clone();
        let ghost before = r@;
        r.push(p);
        assert(string_views(r@) =~= string_views(before).push(p@));
        assert(paths_at(test_paths@, tested_by@.take(a + 1)) =~= paths_at(
            test_paths@,
            tested_by@.take(a as int),
        ).push(test_paths@[tested_by@[a as int] as int]@));
        a += 1;
    }
    assert(tested_by@.take(a as int) =~= tested_by@);
    r
}

/// Solves the coverage of `collection` from the dependencies in
/// `code_info_sets`, then parses every source file from its lines in
/// `sources`, with no commits and with the paths of the tests that reach it.
/// Fails where the dependency information or the sources do not line up
/// with the collection.
pub fn complete_articles(
    collection: &Collection,
    code_info_sets: &Vec<CodeInfoSets>,
    sources: &Vec<Vec<Vec<String>>>,
) -> (r: Result<CompletedArticles, String>)
    requires
        node_count(*collection) <= usize::MAX,
    ensures
        match r {
            Ok(done) => {
                &&& aligned(*collection, code_info_sets@)
                &&& sources_match(*collection, sources@)
                &&& solution(*collection, code_info_sets@, done.relations)
                &&& done.articles@.len() == n_langs(*collection)
                &&& forall|l: int|
                    0 <= l < n_langs(*collection) ==> #[trigger] done.articles@[l]@.len() == src_len(
                        *collection,
                        l,
                    )
                &&& forall|l: int, k: int|
                    0 <= l < n_langs(*collection) && 0 <= k < src_len(*collection, l) ==> outcome_view(
                        #[trigger] done.articles@[l]@[k],
                    ) == article_outcome(
                        *collection,
                        sources@,
                        l,
                        k,
                        done.relations.source_relations@[l]@[k].tested_by@,
                    )
            },
            Err(_) => !aligned(*collection, code_info_sets@) || !sources_match(*collection, sources@),
        },
{
    let ghost c = *collection;
    let nl = collection.source_sets.len();
    if sources.len() != nl {
        return Err(String::from_str("Sources do not match the partitions of the collection"));
    }
    let mut l: usize = 0;
    while l < nl
        invariant
            nl == n_langs(c),
            c == *collection,
            sources@.len() == nl,
            l <= nl,
            forall|i: int| 0 <= i < l ==> #[trigger] sources@[i]@.len() == src_len(c, i),
        decreases nl - l,
    {
        if sources[l].len() != collection.source_sets[l].src_paths.len() {
            return Err(String::from_str("Sources do not match the source files of the collection"));
        }
        l += 1;
    }
    let relations = match solve_relation(collection, code_info_sets) {
        Ok(relations) => relations,
        Err(e) => {
            return Err(e);
        },
    };
    let ghost infos = code_info_sets@;
    let mut articles: Vec<Vec<Result<Article, ParseError>>> = Vec::new();
    let mut l: usize = 0;
    while l < nl
        invariant
            nl == n_langs(c),
            c == *collection,
            infos == code_info_sets@,
            sources_match(c, sources@),
            solution(c, infos, relations),
            l <= nl,
            articles@.len() == l,
            forall|i: int| 0 <= i < l ==> #[trigger] articles@[i]@.len() == src_len(c, i),
            forall|i: int, k: int|
                0 <= i < l && 0 <= k < src_len(c, i) ==> outcome_view(#[trigger] articles@[i]@[k])
                    == article_outcome(
                    c,
                    sources@,
                    i,
                    k,
                    relations.source_relations@[i]@[k].tested_by@,
                ),
        decreases nl - l,
    {
        let set = &collection.source_sets[l];
        let rels = &relations.source_relations[l];
        let mut row: Vec<Result<Article, ParseError>> = Vec::new();
        let mut k: usize = 0;
        while k < set.src_paths.len()
            invariant
                nl == n_langs(c),
                c == *collection,
                infos == code_info_sets@,
                sources_match(c, sources@),
                solution(c, infos, relations),
                l < nl,
                set == c.source_sets@[l as int],
                rels == relations.source_relations@[l as int],
                k <= set.src_paths.len(),
                row@.len() == k,
                forall|k2: int|
                    0 <= k2 < k ==> outcome_view(#[trigger] row@[k2]) == article_outcome(
                        c,
                        sources@,
                        l as int,
                        k2,
                        relations.source_relations@[l as int]@[k2].tested_by@,
                    ),
            decreases set.src_paths.len() - k,
        {
            let tested_by = &rels[k].tested_by;
            proof {
                assert(crate::relation_solver::tested_by_exact(c, infos, l as int, k as int, tested_by@));
                assert forall|a: int| 0 <= a < tested_by@.len() implies #[trigger] tested_by@[a]
                    < set.test_paths@.len() by {
                    assert(tested_by@.contains(tested_by@[a]));
                };
            }
            let paths = tested_by_paths(&set.test_paths, tested_by);
            let commits: Vec<Commit> = match gather_commit_info(set.src_paths[k].as_str()) {
                Ok(commits) => commits,
                Err(_) => Vec::new(),
            };
            assert(commits@ =~= Seq::<Commit>::empty());
            let outcome = parse_document(
                &sources[l][k],
                set.src_paths[k].clone(),
                set.lang.clone(),
                commits,
                paths,
            );
            row.push(outcome);
            k += 1;
        }
        articles.push(row);
        l += 1;
    }
    Ok(CompletedArticles { relations, articles })
}

} // verus!
