//! Assembling the language partitions of a repository from the paths that
//! were found under it.
use vstd::prelude::*;

use crate::code_info::{rooted, rooted_path};
use crate::codelib::{Collection, Commit, SourceSets};
use crate::text::string_views;

verus! {

pub open spec fn min3(a: int, b: int, c: int) -> int {
    if a <= b && a <= c {
        a
    } else if b <= c {
        b
    } else {
        c
    }
}

/// Every path of `v`, made root-relative.
pub open spec fn rooted_all(v: Seq<String>) -> Seq<Seq<char>> {
    string_views(v).map_values(|p: Seq<char>| rooted(p))
}

/// Partition `s` has language `lang` and the root-relative forms of `src`
/// and `test` as its paths.
pub open spec fn partition_of(s: SourceSets, lang: String, src: Seq<String>, test: Seq<String>) -> bool {
    &&& s.lang@ == lang@
    &&& string_views(s.src_paths@) == rooted_all(src)
    &&& string_views(s.test_paths@) == rooted_all(test)
}

/// Every path of `paths`, made root-relative.
fn rooted_paths(paths: &Vec<String>) -> (r: Vec<String>)
    ensures
        string_views(r@) == rooted_all(paths@),
{
    let mut r: Vec<String> = Vec::new();
    let mut i: usize = 0;
    while i < paths.len()
        invariant
            i <= paths.len(),
            string_views(r@) == rooted_all(paths@.take(i as int)),
        decreases paths.len() - i,
    {
        let p = rooted_path(paths[i].as_str());
        let ghost before = r@;
        r.push(p);
        assert(string_views(r@) =~= string_views(before).push(p@));
        assert(rooted_all(paths@.take(i + 1)) =~= rooted_all(paths@.take(i as int)).push(
            rooted(paths@[i as int]@),
        ));
        i += 1;
    }
    assert(paths@.take(i as int) =~= paths@);
    r
}

/// The collection of a repository at `base_path` whose partitions are
/// `langs`, with, for each, the paths of its source and of its test files
/// relative to `base_path`. Partition `i` takes `langs[i]`, `src_paths[i]`
/// and `test_paths[i]`, each path made root-relative with a leading `/`;
/// where the three lists differ in length, the shortest decides.
pub fn gather_collection(
    base_path: &str,
    langs: Vec<String>,
    src_paths: Vec<Vec<String>>,
    test_paths: Vec<Vec<String>>,
) -> (r: Collection)
    ensures
        r.base_path@ == base_path@,
        r.source_sets@.len() == min3(
            langs@.len() as int,
            src_paths@.len() as int,
            test_paths@.len() as int,
        ),
        forall|i: int|
            0 <= i < r.source_sets@.len() ==> #[trigger] partition_of(
                r.source_sets@[i],
                langs@[i],
                src_paths@[i]@,
                test_paths@[i]@,
            ),
{
    let mut n = langs.len();
    if src_paths.len() < n {
        n = src_paths.len();
    }
    if test_paths.len() < n {
        n = test_paths.len();
    }
    let mut source_sets: Vec<SourceSets> = Vec::new();
    let mut i: usize = 0;
    while i < n
        invariant
            n <= langs.len(),
            n <= src_paths.len(),
            n <= test_paths.len(),
            i <= n,
            source_sets@.len() == i,
            forall|j: int|
                0 <= j < i ==> #[trigger] partition_of(
                    source_sets@[j],
                    langs@[j],
                    src_paths@[j]@,
                    test_paths@[j]@,
                ),
        decreases n - i,
    {
        source_sets.push(
            SourceSets {
                lang: langs[i].clone(),
                src_paths: rooted_paths(&src_paths[i]),
                test_paths: rooted_paths(&test_paths[i]),
            },
        );
        i += 1;
    }
    let r = Collection { base_path: String::from_str(base_path), source_sets };
    r
}

/// The commit history of a file. No history source is attached, so every
/// file has an empty history.
pub fn gather_commit_info(_filepath: &str) -> (r: Result<Vec<Commit>, String>)
    ensures
        r is Ok,
        r->Ok_0@.len() == 0,
{
    Ok(Vec::new())
}

} // verus!
