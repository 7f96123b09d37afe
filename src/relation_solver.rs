//! The dependency relation solver: for every source file, the tests of its
//! own language partition that reach it through the dependency graph.
use vstd::prelude::*;
use vstd::set_lib::{lemma_int_range, lemma_len_subset, set_int_range};

use crate::codelib::{CodeInfo, CodeInfoSets, Collection};

verus! {

/// A node of the dependency graph: a source or a test file, by partition and
/// by position in that partition.
#[derive(Clone, Copy, PartialEq, Eq, Structural, Debug)]
pub enum CodeIndex {
    Src(usize, usize),
    Test(usize, usize),
}

/// The tests that reach one source file, by their index in the partition.
#[derive(Debug)]
pub struct SourceRelation {
    pub tested_by: Vec<usize>,
}

/// `source_relations[l][k]` is the relation of source `k` of partition `l`.
#[derive(Debug)]
pub struct Relations {
    pub source_relations: Vec<Vec<SourceRelation>>,
}

pub open spec fn n_langs(c: Collection) -> int {
    c.source_sets@.len() as int
}

pub open spec fn src_len(c: Collection, l: int) -> int {
    c.source_sets@[l].src_paths@.len() as int
}

pub open spec fn test_len(c: Collection, l: int) -> int {
    c.source_sets@[l].test_paths@.len() as int
}

/// The dependency information lines up with the collection: one entry per
/// partition, with the same language, and one per source and per test file.
pub open spec fn aligned(c: Collection, infos: Seq<CodeInfoSets>) -> bool {
    &&& infos.len() == n_langs(c)
    &&& forall|l: int|
        #![trigger infos[l]]
        0 <= l < infos.len() ==> {
            &&& infos[l].lang@ == c.source_sets@[l].lang@
            &&& infos[l].src_code_infos@.len() == src_len(c, l)
            &&& infos[l].test_code_infos@.len() == test_len(c, l)
        }
}

pub open spec fn is_node(c: Collection, n: CodeIndex) -> bool {
    match n {
        CodeIndex::Src(l, k) => l < n_langs(c) && k < src_len(c, l as int),
        CodeIndex::Test(l, k) => l < n_langs(c) && k < test_len(c, l as int),
    }
}

pub open spec fn node_path(c: Collection, n: CodeIndex) -> Seq<char> {
    match n {
        CodeIndex::Src(l, k) => c.source_sets@[l as int].src_paths@[k as int]@,
        CodeIndex::Test(l, k) => c.source_sets@[l as int].test_paths@[k as int]@,
    }
}

pub open spec fn node_deps(infos: Seq<CodeInfoSets>, n: CodeIndex) -> Seq<String> {
    match n {
        CodeIndex::Src(l, k) => infos[l as int].src_code_infos@[k as int].filepath_dependencies@,
        CodeIndex::Test(l, k) => infos[l as int].test_code_infos@[k as int].filepath_dependencies@,
    }
}

/// The order in which paths enter the lookup: every source before every
/// test, each by partition and then by position.
pub open spec fn precedes(a: CodeIndex, b: CodeIndex) -> bool {
    match (a, b) {
        (CodeIndex::Src(l1, k1), CodeIndex::Src(l2, k2)) => l1 < l2 || (l1 == l2 && k1 < k2),
        (CodeIndex::Src(_, _), CodeIndex::Test(_, _)) => true,
        (CodeIndex::Test(_, _), CodeIndex::Src(_, _)) => false,
        (CodeIndex::Test(l1, k1), CodeIndex::Test(l2, k2)) => l1 < l2 || (l1 == l2 && k1 < k2),
    }
}

/// Path `p` resolves to node `n`: `n` is the last node in lookup order whose
/// path is `p`.
pub open spec fn resolves_to(c: Collection, p: Seq<char>, n: CodeIndex) -> bool {
    &&& is_node(c, n)
    &&& node_path(c, n) == p
    &&& forall|m: CodeIndex| is_node(c, m) && precedes(n, m) ==> node_path(c, m) != p
}

/// One of the first `n` paths of `deps` resolves to `v`.
pub open spec fn names_node(c: Collection, deps: Seq<String>, n: int, v: CodeIndex) -> bool {
    exists|e: int| 0 <= e < n && #[trigger] resolves_to(c, deps[e]@, v)
}

/// `u` depends on `v`: one of the dependency paths of `u` resolves to `v`.
/// A path that resolves to no node adds no edge.
pub open spec fn edge(c: Collection, infos: Seq<CodeInfoSets>, u: CodeIndex, v: CodeIndex) -> bool {
    names_node(c, node_deps(infos, u), node_deps(infos, u).len() as int, v)
}

pub open spec fn is_walk(c: Collection, infos: Seq<CodeInfoSets>, w: Seq<CodeIndex>) -> bool {
    &&& w.len() > 0
    &&& forall|i: int| 0 <= i < w.len() ==> is_node(c, #[trigger] w[i])
    &&& forall|i: int| 0 <= i < w.len() - 1 ==> edge(c, infos, #[trigger] w[i], w[i + 1])
}

/// `v` can be reached from `u` by following dependencies, through nodes of
/// any partition and of either role.
pub open spec fn reaches(c: Collection, infos: Seq<CodeInfoSets>, u: CodeIndex, v: CodeIndex) -> bool {
    exists|w: Seq<CodeIndex>| #[trigger] is_walk(c, infos, w) && w[0] == u && w.last() == v
}

/// `t` lists, in strictly increasing order, exactly the tests of partition
/// `l` that reach source `k` of that partition.
pub open spec fn tested_by_exact(
    c: Collection,
    infos: Seq<CodeInfoSets>,
    l: int,
    k: int,
    t: Seq<usize>,
) -> bool {
    &&& forall|a: int, b: int| 0 <= a < b < t.len() ==> t[a] < t[b]
    &&& forall|j: usize|
        #[trigger] t.contains(j) <==> (j < test_len(c, l) && reaches(
            c,
            infos,
            CodeIndex::Test(l as usize, j),
            CodeIndex::Src(l as usize, k as usize),
        ))
}

/// `rel` is the coverage relation of the collection: one list per source
/// file of every partition, each exact.
pub open spec fn solution(c: Collection, infos: Seq<CodeInfoSets>, rel: Relations) -> bool {
    &&& rel.source_relations@.len() == n_langs(c)
    &&& forall|l: int|
        0 <= l < n_langs(c) ==> #[trigger] rel.source_relations@[l]@.len() == src_len(c, l)
    &&& forall|l: int, k: int|
        0 <= l < n_langs(c) && 0 <= k < src_len(c, l) ==> tested_by_exact(
            c,
            infos,
            l,
            k,
            #[trigger] rel.source_relations@[l]@[k].tested_by@,
        )
}

/// A path resolves to one node at most.
pub proof fn lemma_resolves_unique(c: Collection, p: Seq<char>, a: CodeIndex, b: CodeIndex)
    requires
        resolves_to(c, p, a),
        resolves_to(c, p, b),
    ensures
        a == b,
{
    if a != b {
        assert(precedes(a, b) || precedes(b, a));
    }
}

/// The node that path `p` resolves to, if any.
fn resolve_path(c: &Collection, p: &String) -> (r: Option<CodeIndex>)
    ensures
        match r {
            Some(n) => resolves_to(*c, p@, n),
            None => forall|n: CodeIndex| is_node(*c, n) ==> node_path(*c, n) != p@,
        },
{
    let ghost cv = *c;
    let mut l = c.source_sets.len();
    while l > 0
        invariant
            cv == *c,
            l <= n_langs(cv),
            forall|m: CodeIndex|
                is_node(cv, m) && (match m {
                    CodeIndex::Test(l2, _) => l2 >= l,
                    _ => false,
                }) ==> node_path(cv, m) != p@,
        decreases l,
    {
        l -= 1;
        let paths = &c.source_sets[l].test_paths;
        let mut k = paths.len();
        while k > 0
            invariant
                cv == *c,
                l < n_langs(cv),
                paths == c.source_sets@[l as int].test_paths,
                k <= paths.len(),
                forall|m: CodeIndex|
                    is_node(cv, m) && (match m {
                        CodeIndex::Test(l2, k2) => l2 > l || (l2 == l && k2 >= k),
                        _ => false,
                    }) ==> node_path(cv, m) != p@,
            decreases k,
        {
            k -= 1;
            if paths[k].eq(p) {
                return Some(CodeIndex::Test(l, k));
            }
        }
    }
    let mut l = c.source_sets.len();
    while l > 0
        invariant
            cv == *c,
            l <= n_langs(cv),
            forall|m: CodeIndex|
                is_node(cv, m) && (match m {
                    CodeIndex::Test(_, _) => true,
                    CodeIndex::Src(l2, _) => l2 >= l,
                }) ==> node_path(cv, m) != p@,
        decreases l,
    {
        l -= 1;
        let paths = &c.source_sets[l].src_paths;
        let mut k = paths.len();
        while k > 0
            invariant
                cv == *c,
                l < n_langs(cv),
                paths == c.source_sets@[l as int].src_paths,
                k <= paths.len(),
                forall|m: CodeIndex|
                    is_node(cv, m) && (match m {
                        CodeIndex::Test(_, _) => true,
                        CodeIndex::Src(l2, k2) => l2 > l || (l2 == l && k2 >= k),
                    }) ==> node_path(cv, m) != p@,
            decreases k,
        {
            k -= 1;
            if paths[k].eq(p) {
                return Some(CodeIndex::Src(l, k));
            }
        }
    }
    None
}

/// The number of source files in the partitions before `l`.
pub open spec fn src_before(c: Collection, l: int) -> int
    decreases l,
{
    if l <= 0 {
        0
    } else {
        src_before(c, l - 1) + src_len(c, l - 1)
    }
}

/// The number of test files in the partitions before `l`.
pub open spec fn test_before(c: Collection, l: int) -> int
    decreases l,
{
    if l <= 0 {
        0
    } else {
        test_before(c, l - 1) + test_len(c, l - 1)
    }
}

/// The number of files of the collection.
pub open spec fn node_count(c: Collection) -> int {
    src_before(c, n_langs(c)) + test_before(c, n_langs(c))
}

/// The position of a node when every source and then every test is numbered in lookup order.
pub open spec fn flat(c: Collection, n: CodeIndex) -> int {
    match n {
        CodeIndex::Src(l, k) => src_before(c, l as int) + k,
        CodeIndex::Test(l, k) => src_before(c, n_langs(c)) + test_before(c, l as int) + k,
    }
}

proof fn lemma_before_mono(c: Collection, a: int, b: int)
    requires
        0 <= a <= b,
    ensures
        src_before(c, a) <= src_before(c, b),
        test_before(c, a) <= test_before(c, b),
        a < b ==> src_before(c, a) + src_len(c, a) <= src_before(c, b),
        a < b ==> test_before(c, a) + test_len(c, a) <= test_before(c, b),
    decreases b - a,
{
    if a < b {
        lemma_before_mono(c, a, b - 1);
    }
}

/// Numbering the nodes in lookup order is one to one onto `0..node_count`.
proof fn lemma_flat(c: Collection, n: CodeIndex, m: CodeIndex)
    requires
        is_node(c, n),
        is_node(c, m),
    ensures
        0 <= flat(c, n) < node_count(c),
        flat(c, n) == flat(c, m) ==> n == m,
{
    let nl = n_langs(c);
    lemma_before_mono(c, 0, nl);
    match n {
        CodeIndex::Src(l, _) => {
            lemma_before_mono(c, 0, l as int);
            lemma_before_mono(c, l as int, nl);
        },
        CodeIndex::Test(l, _) => {
            lemma_before_mono(c, 0, l as int);
            lemma_before_mono(c, l as int, nl);
        },
    }
    match m {
        CodeIndex::Src(l, _) => {
            lemma_before_mono(c, l as int, nl);
        },
        CodeIndex::Test(l, _) => {
            lemma_before_mono(c, l as int, nl);
        },
    }
    match (n, m) {
        (CodeIndex::Src(l1, _), CodeIndex::Src(l2, _)) => {
            if l1 < l2 {
                lemma_before_mono(c, l1 as int, l2 as int);
            } else if l2 < l1 {
                lemma_before_mono(c, l2 as int, l1 as int);
            }
        },
        (CodeIndex::Test(l1, _), CodeIndex::Test(l2, _)) => {
            if l1 < l2 {
                lemma_before_mono(c, l1 as int, l2 as int);
            } else if l2 < l1 {
                lemma_before_mono(c, l2 as int, l1 as int);
            }
        },
        (CodeIndex::Src(l1, _), CodeIndex::Test(l2, _)) => {
            lemma_before_mono(c, 0, l2 as int);
        },
        (CodeIndex::Test(l1, _), CodeIndex::Src(l2, _)) => {
            lemma_before_mono(c, 0, l1 as int);
        },
    }
}

/// `infos` holds an entry for node `n`.
pub open spec fn has_info(infos: Seq<CodeInfoSets>, n: CodeIndex) -> bool {
    match n {
        CodeIndex::Src(l, k) => l < infos.len() && k < infos[l as int].src_code_infos@.len(),
        CodeIndex::Test(l, k) => l < infos.len() && k < infos[l as int].test_code_infos@.len(),
    }
}

/// The dependency information of node `n`.
fn get_code_info<'a>(infos: &'a Vec<CodeInfoSets>, n: &CodeIndex) -> (r: &'a CodeInfo)
    requires
        has_info(infos@, *n),
    ensures
        r.filepath_dependencies@ == node_deps(infos@, *n),
{
    match n {
        CodeIndex::Src(l, k) => &infos[*l].src_code_infos[*k],
        CodeIndex::Test(l, k) => &infos[*l].test_code_infos[*k],
    }
}

/// `row` holds exactly the nodes that `u` depends on.
pub open spec fn edges_ok(c: Collection, infos: Seq<CodeInfoSets>, u: CodeIndex, row: Seq<CodeIndex>) -> bool {
    &&& forall|i: int| 0 <= i < row.len() ==> is_node(c, #[trigger] row[i])
    &&& forall|v: CodeIndex| #[trigger] row.contains(v) <==> edge(c, infos, u, v)
}

/// The nodes that `u` depends on.
fn successors(c: &Collection, infos: &Vec<CodeInfoSets>, u: CodeIndex) -> (r: Vec<CodeIndex>)
    requires
        aligned(*c, infos@),
        is_node(*c, u),
    ensures
        edges_ok(*c, infos@, u, r@),
{
    let ghost cv = *c;
    assert(has_info(infos@, u));
    let deps = &get_code_info(infos, &u).filepath_dependencies;
    let mut row: Vec<CodeIndex> = Vec::new();
    let mut d: usize = 0;
    while d < deps.len()
        invariant
            cv == *c,
            d <= deps.len(),
            deps@ == node_deps(infos@, u),
            forall|i: int| 0 <= i < row.len() ==> is_node(cv, #[trigger] row@[i]),
            forall|v: CodeIndex| #[trigger] row@.contains(v) <==> names_node(cv, deps@, d as int, v),
        decreases deps.len() - d,
    {
        let ghost before = row@;
        match resolve_path(c, &deps[d]) {
            Some(n) => {
                row.push(n);
                assert forall|v: CodeIndex| names_node(cv, deps@, d + 1, v) implies #[trigger]
                    row@.contains(v) by {
                    let e = choose|e: int| 0 <= e < d + 1 && #[trigger] resolves_to(cv, deps@[e]@, v);
                    if e == d {
                        lemma_resolves_unique(cv, deps@[d as int]@, n, v);
                        assert(row@[before.len() as int] == v);
                    } else {
                        assert(names_node(cv, deps@, d as int, v));
                        assert(before.contains(v));
                        let i = choose|i: int| 0 <= i < before.len() && before[i] == v;
                        assert(row@[i] == v);
                    }
                };
                assert forall|v: CodeIndex| #[trigger] row@.contains(v) implies names_node(
                    cv,
                    deps@,
                    d + 1,
                    v,
                ) by {
                    if v == n {
                        assert(resolves_to(cv, deps@[d as int]@, v));
                    } else {
                        let i = choose|i: int| 0 <= i < row@.len() && row@[i] == v;
                        assert(before[i] == v);
                        assert(before.contains(v));
                        let e = choose|e: int| 0 <= e < d && #[trigger] resolves_to(cv, deps@[e]@, v);
                        assert(resolves_to(cv, deps@[e]@, v));
                    }
                };
            },
            None => {
                assert forall|v: CodeIndex| #[trigger]
                    row@.contains(v) <==> names_node(cv, deps@, d + 1, v) by {
                    if names_node(cv, deps@, d + 1, v) {
                        let e = choose|e: int| 0 <= e < d + 1 && #[trigger] resolves_to(cv, deps@[e]@, v);
                        assert(e != d);
                    }
                };
            },
        }
        d += 1;
    }
    row
}

/// A node reaches itself.
proof fn lemma_reaches_self(c: Collection, infos: Seq<CodeInfoSets>, s: CodeIndex)
    requires
        is_node(c, s),
    ensures
        reaches(c, infos, s, s),
{
    let w = seq![s];
    assert(is_walk(c, infos, w));
}

/// What a node reaches, it reaches one dependency further.
proof fn lemma_reaches_step(
    c: Collection,
    infos: Seq<CodeInfoSets>,
    s: CodeIndex,
    u: CodeIndex,
    v: CodeIndex,
)
    requires
        reaches(c, infos, s, u),
        edge(c, infos, u, v),
        is_node(c, v),
    ensures
        reaches(c, infos, s, v),
{
    let w = choose|w: Seq<CodeIndex>| #[trigger] is_walk(c, infos, w) && w[0] == s && w.last() == u;
    let w2 = w.push(v);
    assert forall|i: int| 0 <= i < w2.len() - 1 implies edge(c, infos, #[trigger] w2[i], w2[i + 1]) by {
        if i < w.len() - 1 {
            assert(w2[i] == w[i] && w2[i + 1] == w[i + 1]);
        }
    };
    assert(is_walk(c, infos, w2));
}

/// A set of nodes that is closed under dependencies holds the end of every
/// walk that starts in it.
proof fn lemma_walk_stays(c: Collection, infos: Seq<CodeInfoSets>, w: Seq<CodeIndex>, vs: Set<CodeIndex>)
    requires
        is_walk(c, infos, w),
        vs.contains(w[0]),
        forall|x: CodeIndex, y: CodeIndex|
            vs.contains(x) && #[trigger] edge(c, infos, x, y) ==> vs.contains(y),
    ensures
        vs.contains(w.last()),
    decreases w.len(),
{
    if w.len() > 1 {
        let w2 = w.drop_last();
        assert forall|i: int| 0 <= i < w2.len() - 1 implies edge(c, infos, #[trigger] w2[i], w2[i + 1]) by {
            assert(w2[i] == w[i] && w2[i + 1] == w[i + 1]);
        };
        assert(is_walk(c, infos, w2));
        lemma_walk_stays(c, infos, w2, vs);
        assert(edge(c, infos, w[w.len() - 2], w[w.len() - 1]));
    }
}

proof fn lemma_flat_all(c: Collection)
    ensures
        forall|n: CodeIndex| is_node(c, n) ==> 0 <= #[trigger] flat(c, n) < node_count(c),
        forall|n: CodeIndex, m: CodeIndex|
            is_node(c, n) && is_node(c, m) && #[trigger] flat(c, n) == #[trigger] flat(c, m) ==> n
                == m,
{
    assert forall|n: CodeIndex| is_node(c, n) implies 0 <= #[trigger] flat(c, n) < node_count(c) by {
        lemma_flat(c, n, n);
    };
    assert forall|n: CodeIndex, m: CodeIndex|
        is_node(c, n) && is_node(c, m) && #[trigger] flat(c, n) == #[trigger] flat(c, m) implies n
        == m by {
        lemma_flat(c, n, m);
    };
}

/// The solver's working state: the numbering of the nodes and the
/// dependencies of every node, resolved once.
struct RelationInternalSolver<'a> {
    collection: &'a Collection,
    code_info_sets: &'a Vec<CodeInfoSets>,
    src_offsets: Vec<usize>,
    test_offsets: Vec<usize>,
    src_edges: Vec<Vec<Vec<CodeIndex>>>,
    test_edges: Vec<Vec<Vec<CodeIndex>>>,
}

impl<'a> RelationInternalSolver<'a> {
    spec fn coll(&self) -> Collection {
        *self.collection
    }

    spec fn infos(&self) -> Seq<CodeInfoSets> {
        self.code_info_sets@
    }

    spec fn edges_of(&self, n: CodeIndex) -> Seq<CodeIndex> {
        match n {
            CodeIndex::Src(l, k) => self.src_edges@[l as int]@[k as int]@,
            CodeIndex::Test(l, k) => self.test_edges@[l as int]@[k as int]@,
        }
    }

    spec fn wf(&self) -> bool {
        let c = self.coll();
        let nl = n_langs(c);
        &&& aligned(c, self.infos())
        &&& node_count(c) <= usize::MAX
        &&& self.src_offsets@.len() == nl + 1
        &&& self.test_offsets@.len() == nl + 1
        &&& forall|l: int| 0 <= l <= nl ==> #[trigger] self.src_offsets@[l] == src_before(c, l)
        &&& forall|l: int|
            0 <= l <= nl ==> #[trigger] self.test_offsets@[l] == src_before(c, nl) + test_before(c, l)
        &&& self.src_edges@.len() == nl
        &&& self.test_edges@.len() == nl
        &&& forall|l: int| 0 <= l < nl ==> #[trigger] self.src_edges@[l]@.len() == src_len(c, l)
        &&& forall|l: int| 0 <= l < nl ==> #[trigger] self.test_edges@[l]@.len() == test_len(c, l)
        &&& forall|n: CodeIndex| is_node(c, n) ==> edges_ok(c, self.infos(), n, #[trigger] self.edges_of(n))
    }

    /// Whether every dependency of `n` is marked in `vis`.
    spec fn closed(&self, vis: Seq<bool>, n: CodeIndex) -> bool {
        forall|i: int|
            0 <= i < self.edges_of(n).len() ==> vis[flat(self.coll(), #[trigger] self.edges_of(n)[i])]
    }

    fn flat_index(&self, n: CodeIndex) -> (r: usize)
        requires
            self.wf(),
            is_node(self.coll(), n),
        ensures
            r == flat(self.coll(), n),
    {
        proof {
            lemma_flat(self.coll(), n, n);
        }
        match n {
            CodeIndex::Src(l, k) => self.src_offsets[l] + k,
            CodeIndex::Test(l, k) => self.test_offsets[l] + k,
        }
    }

    fn out_edges(&self, n: CodeIndex) -> (r: &Vec<CodeIndex>)
        requires
            self.wf(),
            is_node(self.coll(), n),
        ensures
            r@ == self.edges_of(n),
    {
        match n {
            CodeIndex::Src(l, k) => &self.src_edges[l][k],
            CodeIndex::Test(l, k) => &self.test_edges[l][k],
        }
    }

    /// Numbers the nodes and resolves the dependencies of every node.
    fn new(collection: &'a Collection, code_info_sets: &'a Vec<CodeInfoSets>) -> (r: Self)
        requires
            aligned(*collection, code_info_sets@),
            node_count(*collection) <= usize::MAX,
        ensures
            r.wf(),
            r.collection == collection,
            r.code_info_sets == code_info_sets,
    {
        let ghost c = *collection;
        let nl = collection.source_sets.len();
        proof {
            lemma_before_mono(c, 0, nl as int);
        }
        let mut src_offsets: Vec<usize> = Vec::new();
        let mut acc: usize = 0;
        src_offsets.push(0);
        let mut l: usize = 0;
        while l < nl
            invariant
                c == *collection,
                nl == n_langs(c),
                l <= nl,
                node_count(c) <= usize::MAX,
                0 <= test_before(c, nl as int),
                acc == src_before(c, l as int),
                src_offsets@.len() == l + 1,
                forall|i: int| 0 <= i <= l ==> #[trigger] src_offsets@[i] == src_before(c, i),
            decreases nl - l,
        {
            proof {
                lemma_before_mono(c, l + 1, nl as int);
            }
            acc = acc + collection.source_sets[l].src_paths.len();
            l += 1;
            src_offsets.push(acc);
        }
        let mut test_offsets: Vec<usize> = Vec::new();
        let ghost total_src = src_before(c, nl as int);
        test_offsets.push(acc);
        let mut l: usize = 0;
        while l < nl
            invariant
                c == *collection,
                nl == n_langs(c),
                l <= nl,
                node_count(c) <= usize::MAX,
                total_src == src_before(c, nl as int),
                acc == total_src + test_before(c, l as int),
                test_offsets@.len() == l + 1,
                forall|i: int| 0 <= i <= l ==> #[trigger] test_offsets@[i] == total_src + test_before(c, i),
            decreases nl - l,
        {
            proof {
                lemma_before_mono(c, l + 1, nl as int);
            }
            acc = acc + collection.source_sets[l].test_paths.len();
            l += 1;
            test_offsets.push(acc);
        }
        let src_edges = Self::edge_table(collection, code_info_sets, true);
        let test_edges = Self::edge_table(collection, code_info_sets, false);
        let r = RelationInternalSolver {
            collection,
            code_info_sets,
            src_offsets,
            test_offsets,
            src_edges,
            test_edges,
        };
        assert forall|n: CodeIndex| is_node(c, n) implies edges_ok(
            c,
            code_info_sets@,
            n,
            #[trigger] r.edges_of(n),
        ) by {
            match n {
                CodeIndex::Src(l, k) => {
                    assert(edges_ok(c, code_info_sets@, n, src_edges@[l as int]@[k as int]@));
                },
                CodeIndex::Test(l, k) => {
                    assert(edges_ok(c, code_info_sets@, n, test_edges@[l as int]@[k as int]@));
                },
            }
        };
        r
    }

    /// The dependencies of every source file (`src`) or of every test file,
    /// by partition and position.
    fn edge_table(collection: &Collection, code_info_sets: &Vec<CodeInfoSets>, src: bool) -> (r: Vec<
        Vec<Vec<CodeIndex>>,
    >)
        requires
            aligned(*collection, code_info_sets@),
        ensures
            r@.len() == n_langs(*collection),
            forall|l: int|
                0 <= l < n_langs(*collection) ==> #[trigger] r@[l]@.len() == if src {
                    src_len(*collection, l)
                } else {
                    test_len(*collection, l)
                },
            forall|l: int, k: int|
                0 <= l < n_langs(*collection) && 0 <= k < r@[l]@.len() ==> edges_ok(
                    *collection,
                    code_info_sets@,
                    if src {
                        CodeIndex::Src(l as usize, k as usize)
                    } else {
                        CodeIndex::Test(l as usize, k as usize)
                    },
                    #[trigger] r@[l]@[k]@,
                ),
    {
        let ghost c = *collection;
        let nl = collection.source_sets.len();
        let mut table: Vec<Vec<Vec<CodeIndex>>> = Vec::new();
        let mut l: usize = 0;
        while l < nl
            invariant
                c == *collection,
                nl == n_langs(c),
                aligned(c, code_info_sets@),
                l <= nl,
                table@.len() == l,
                forall|i: int|
                    0 <= i < l ==> #[trigger] table@[i]@.len() == if src {
                        src_len(c, i)
                    } else {
                        test_len(c, i)
                    },
                forall|i: int, k: int|
                    0 <= i < l && 0 <= k < table@[i]@.len() ==> edges_ok(
                        c,
                        code_info_sets@,
                        if src {
                            CodeIndex::Src(i as usize, k as usize)
                        } else {
                            CodeIndex::Test(i as usize, k as usize)
                        },
                        #[trigger] table@[i]@[k]@,
                    ),
            decreases nl - l,
        {
            let n = if src {
                collection.source_sets[l].src_paths.len()
            } else {
                collection.source_sets[l].test_paths.len()
            };
            let mut rows: Vec<Vec<CodeIndex>> = Vec::new();
            let mut k: usize = 0;
            while k < n
                invariant
                    c == *collection,
                    nl == n_langs(c),
                    aligned(c, code_info_sets@),
                    l < nl,
                    n == if src {
                        src_len(c, l as int)
                    } else {
                        test_len(c, l as int)
                    },
                    k <= n,
                    rows@.len() == k,
                    forall|k2: int|
                        0 <= k2 < k ==> edges_ok(
                            c,
                            code_info_sets@,
                            if src {
                                CodeIndex::Src(l, k2 as usize)
                            } else {
                                CodeIndex::Test(l, k2 as usize)
                            },
                            #[trigger] rows@[k2]@,
                        ),
                decreases n - k,
            {
                let u = if src {
                    CodeIndex::Src(l, k)
                } else {
                    CodeIndex::Test(l, k)
                };
                rows.push(successors(collection, code_info_sets, u));
                k += 1;
            }
            table.push(rows);
            l += 1;
        }
        table
    }

    /// Marks every node that `start` reaches, by the position of the node in
    /// lookup order. Each node is entered at most once, so cycles end.
    fn solve_internal_tested_by_dfs(&self, start: CodeIndex) -> (visited: Vec<bool>)
        requires
            self.wf(),
            is_node(self.coll(), start),
        ensures
            visited@.len() == node_count(self.coll()),
            forall|n: CodeIndex|
                is_node(self.coll(), n) ==> (#[trigger] visited@[flat(self.coll(), n)] <==> reaches(
                    self.coll(),
                    self.infos(),
                    start,
                    n,
                )),
    {
        let ghost c = self.coll();
        let ghost infos = self.infos();
        proof {
            lemma_flat_all(c);
            lemma_reaches_self(c, infos, start);
        }
        let total = self.test_offsets[self.code_info_sets.len()];
        let mut visited: Vec<bool> = Vec::new();
        while visited.len() < total
            invariant
                total == node_count(c),
                visited.len() <= total,
                forall|f: int| 0 <= f < visited.len() ==> !#[trigger] visited@[f],
            decreases total - visited.len(),
        {
            visited.push(false);
        }
        let fs = self.flat_index(start);
        visited.set(fs, true);
        let mut stack: Vec<CodeIndex> = Vec::new();
        stack.push(start);
        let ghost mut seen: Set<int> = Set::empty().insert(fs as int);
        let ghost mut pops: int = 0;
        assert forall|f: int| #[trigger] seen.contains(f) <==> (0 <= f < total && visited@[f]) by {};
        assert(stack@[0] == start);
        assert forall|n: CodeIndex| is_node(c, n) && #[trigger] visited@[flat(c, n)] implies stack@.contains(
            n,
        ) by {
            assert(flat(c, n) == flat(c, start));
        };
        while stack.len() > 0
            invariant
                self.wf(),
                c == self.coll(),
                infos == self.infos(),
                is_node(c, start),
                total == node_count(c),
                visited@.len() == total,
                forall|n: CodeIndex| is_node(c, n) ==> 0 <= #[trigger] flat(c, n) < node_count(c),
                forall|n: CodeIndex, m: CodeIndex|
                    is_node(c, n) && is_node(c, m) && #[trigger] flat(c, n) == #[trigger] flat(c, m)
                        ==> n == m,
                seen.finite(),
                forall|f: int| #[trigger] seen.contains(f) <==> (0 <= f < total && visited@[f]),
                0 <= pops,
                pops + stack.len() == seen.len(),
                forall|i: int| 0 <= i < stack.len() ==> is_node(c, #[trigger] stack@[i]),
                forall|i: int| 0 <= i < stack.len() ==> visited@[flat(c, #[trigger] stack@[i])],
                forall|n: CodeIndex|
                    is_node(c, n) && #[trigger] visited@[flat(c, n)] ==> reaches(c, infos, start, n),
                forall|n: CodeIndex|
                    is_node(c, n) && #[trigger] visited@[flat(c, n)] ==> stack@.contains(n)
                        || self.closed(visited@, n),
                visited@[flat(c, start)],
            decreases total - pops,
        {
            let ghost before = stack@;
            let u = stack.pop().unwrap();
            proof {
                pops = pops + 1;
                assert(is_node(c, before[before.len() - 1]));
                assert forall|n: CodeIndex| #[trigger] before.contains(n) && n != u implies stack@.contains(n) by {
                    let j = choose|j: int| 0 <= j < before.len() && before[j] == n;
                    assert(stack@[j] == n);
                };
                assert forall|j: int| 0 <= j < stack.len() implies is_node(c, #[trigger] stack@[j])
                    && visited@[flat(c, stack@[j])] by {
                    assert(stack@[j] == before[j]);
                };
                assert(visited@[flat(c, before[before.len() - 1])]);
            }
            assert(is_node(c, u));
            let row = self.out_edges(u);
            let mut i: usize = 0;
            while i < row.len()
                invariant
                    self.wf(),
                    c == self.coll(),
                    infos == self.infos(),
                    is_node(c, start),
                    is_node(c, u),
                    row@ == self.edges_of(u),
                    i <= row.len(),
                    total == node_count(c),
                    visited@.len() == total,
                    forall|n: CodeIndex| is_node(c, n) ==> 0 <= #[trigger] flat(c, n) < node_count(c),
                    forall|n: CodeIndex, m: CodeIndex|
                        is_node(c, n) && is_node(c, m) && #[trigger] flat(c, n) == #[trigger] flat(
                            c,
                            m,
                        ) ==> n == m,
                    seen.finite(),
                    forall|f: int| #[trigger] seen.contains(f) <==> (0 <= f < total && visited@[f]),
                    0 <= pops,
                    pops + stack.len() == seen.len(),
                    forall|j: int| 0 <= j < stack.len() ==> is_node(c, #[trigger] stack@[j]),
                    forall|j: int| 0 <= j < stack.len() ==> visited@[flat(c, #[trigger] stack@[j])],
                    forall|n: CodeIndex|
                        is_node(c, n) && #[trigger] visited@[flat(c, n)] ==> reaches(c, infos, start, n),
                    forall|n: CodeIndex|
                        is_node(c, n) && #[trigger] visited@[flat(c, n)] ==> n == u || stack@.contains(n)
                            || self.closed(visited@, n),
                    forall|j: int| 0 <= j < i ==> visited@[flat(c, #[trigger] row@[j])],
                    visited@[flat(c, start)],
                    visited@[flat(c, u)],
                decreases row.len() - i,
            {
                let v = row[i];
                assert(edges_ok(c, infos, u, self.edges_of(u)));
                assert(is_node(c, v));
                let f = self.flat_index(v);
                if !visited[f] {
                    proof {
                        assert(row@.contains(v));
                        lemma_reaches_step(c, infos, start, u, v);
                    }
                    let ghost old_vis = visited@;
                    let ghost old_stack = stack@;
                    visited.set(f, true);
                    stack.push(v);
                    proof {
                        assert(!seen.contains(f as int));
                        seen = seen.insert(f as int);
                        assert forall|n: CodeIndex| #[trigger] old_stack.contains(n) implies stack@.contains(n) by {
                            let j = choose|j: int| 0 <= j < old_stack.len() && old_stack[j] == n;
                            assert(stack@[j] == n);
                        };
                        assert(stack@[stack@.len() - 1] == v);
                        assert forall|n: CodeIndex|
                            is_node(c, n) && self.closed(old_vis, n) implies self.closed(visited@, n) by {
                            assert forall|j: int| 0 <= j < self.edges_of(n).len() implies visited@[flat(c, #[trigger] self.edges_of(n)[j])] by {
                                assert(old_vis[flat(c, self.edges_of(n)[j])]);
                            };
                        };
                    }
                }
                i += 1;
            }
            proof {
                assert(self.closed(visited@, u));
                lemma_int_range(0, total as int);
                assert(seen.subset_of(set_int_range(0, total as int)));
                lemma_len_subset(seen, set_int_range(0, total as int));
            }
        }
        proof {
            let vs = Set::new(|n: CodeIndex| is_node(c, n) && visited@[flat(c, n)]);
            assert forall|x: CodeIndex, y: CodeIndex|
                vs.contains(x) && #[trigger] edge(c, infos, x, y) implies vs.contains(y) by {
                assert(edges_ok(c, infos, x, self.edges_of(x)));
                assert(self.edges_of(x).contains(y));
                let j = choose|j: int| 0 <= j < self.edges_of(x).len() && self.edges_of(x)[j] == y;
                assert(is_node(c, self.edges_of(x)[j]));
                assert(!stack@.contains(x));
            };
            assert forall|n: CodeIndex| is_node(c, n) && reaches(c, infos, start, n) implies #[trigger] visited@[flat(c, n)] by {
                let w = choose|w: Seq<CodeIndex>| #[trigger] is_walk(c, infos, w) && w[0] == start && w.last() == n;
                lemma_walk_stays(c, infos, w, vs);
            };
        }
        visited
    }

    /// The relation of every source file: the tests of its own partition, in
    /// increasing order, whose traversal marked it.
    fn solve_internal(&self) -> (r: Relations)
        requires
            self.wf(),
        ensures
            solution(self.coll(), self.infos(), r),
    {
        let ghost c = self.coll();
        let ghost infos = self.infos();
        let nl = self.code_info_sets.len();
        let mut source_relations: Vec<Vec<SourceRelation>> = Vec::new();
        let mut l: usize = 0;
        while l < nl
            invariant
                self.wf(),
                c == self.coll(),
                infos == self.infos(),
                nl == n_langs(c),
                l <= nl,
                source_relations@.len() == l,
                forall|i: int| 0 <= i < l ==> #[trigger] source_relations@[i]@.len() == src_len(c, i),
                forall|i: int, k: int|
                    0 <= i < l && 0 <= k < src_len(c, i) ==> tested_by_exact(
                        c,
                        infos,
                        i,
                        k,
                        #[trigger] source_relations@[i]@[k].tested_by@,
                    ),
            decreases nl - l,
        {
            let n_tests = self.collection.source_sets[l].test_paths.len();
            let n_srcs = self.collection.source_sets[l].src_paths.len();
            let mut reached: Vec<Vec<bool>> = Vec::new();
            let mut j: usize = 0;
            while j < n_tests
                invariant
                    self.wf(),
                    c == self.coll(),
                    infos == self.infos(),
                    nl == n_langs(c),
                    l < nl,
                    n_tests == test_len(c, l as int),
                    j <= n_tests,
                    reached@.len() == j,
                    forall|t: int| 0 <= t < j ==> #[trigger] reached@[t]@.len() == node_count(c),
                    forall|t: int, n: CodeIndex|
                        0 <= t < j && is_node(c, n) ==> (#[trigger] reached@[t]@[flat(c, n)]
                            <==> reaches(c, infos, CodeIndex::Test(l, t as usize), n)),
                decreases n_tests - j,
            {
                reached.push(self.solve_internal_tested_by_dfs(CodeIndex::Test(l, j)));
                j += 1;
            }
            let mut rels: Vec<SourceRelation> = Vec::new();
            let mut k: usize = 0;
            while k < n_srcs
                invariant
                    self.wf(),
                    c == self.coll(),
                    infos == self.infos(),
                    nl == n_langs(c),
                    l < nl,
                    n_tests == test_len(c, l as int),
                    n_srcs == src_len(c, l as int),
                    reached@.len() == n_tests,
                    forall|t: int| 0 <= t < n_tests ==> #[trigger] reached@[t]@.len() == node_count(c),
                    forall|t: int, n: CodeIndex|
                        0 <= t < n_tests && is_node(c, n) ==> (#[trigger] reached@[t]@[flat(c, n)]
                            <==> reaches(c, infos, CodeIndex::Test(l, t as usize), n)),
                    k <= n_srcs,
                    rels@.len() == k,
                    forall|k2: int|
                        0 <= k2 < k ==> tested_by_exact(
                            c,
                            infos,
                            l as int,
                            k2,
                            #[trigger] rels@[k2].tested_by@,
                        ),
                decreases n_srcs - k,
            {
                let target = CodeIndex::Src(l, k);
                let f = self.flat_index(target);
                proof {
                    lemma_flat(c, target, target);
                }
                let mut tested_by: Vec<usize> = Vec::new();
                let mut t: usize = 0;
                while t < n_tests
                    invariant
                        c == self.coll(),
                        infos == self.infos(),
                        is_node(c, target),
                        target == CodeIndex::Src(l, k),
                        f == flat(c, target),
                        f < node_count(c),
                        n_tests == test_len(c, l as int),
                        reached@.len() == n_tests,
                        forall|t2: int| 0 <= t2 < n_tests ==> #[trigger] reached@[t2]@.len() == node_count(c),
                        forall|t2: int, n: CodeIndex|
                            0 <= t2 < n_tests && is_node(c, n) ==> (#[trigger] reached@[t2]@[flat(c, n)]
                                <==> reaches(c, infos, CodeIndex::Test(l, t2 as usize), n)),
                        t <= n_tests,
                        forall|a: int, b: int|
                            0 <= a < b < tested_by@.len() ==> tested_by@[a] < tested_by@[b],
                        forall|a: int| 0 <= a < tested_by@.len() ==> #[trigger] tested_by@[a] < t,
                        forall|x: usize|
                            #[trigger] tested_by@.contains(x) <==> (x < t && reaches(
                                c,
                                infos,
                                CodeIndex::Test(l, x),
                                target,
                            )),
                    decreases n_tests - t,
                {
                    let ghost before = tested_by@;
                    if reached[t][f] {
                        tested_by.push(t);
                        proof {
                            assert forall|x: usize| #[trigger] tested_by@.contains(x) <==> (x < t + 1
                                && reaches(c, infos, CodeIndex::Test(l, x), target)) by {
                                if before.contains(x) {
                                    let a = choose|a: int| 0 <= a < before.len() && before[a] == x;
                                    assert(tested_by@[a] == x);
                                }
                                if tested_by@.contains(x) && x != t {
                                    let a = choose|a: int| 0 <= a < tested_by@.len() && tested_by@[a] == x;
                                    assert(before[a] == x);
                                }
                                if x == t {
                                    assert(tested_by@[before.len() as int] == x);
                                }
                            };
                        }
                    } else {
                        proof {
                            assert forall|x: usize| #[trigger] tested_by@.contains(x) <==> (x < t + 1
                                && reaches(c, infos, CodeIndex::Test(l, x), target)) by {
                                if x == t && tested_by@.contains(x) {
                                    let a = choose|a: int| 0 <= a < tested_by@.len() && tested_by@[a] == x;
                                }
                            };
                        }
                    }
                    t += 1;
                }
                rels.push(SourceRelation { tested_by });
                k += 1;
            }
            source_relations.push(rels);
            l += 1;
        }
        Relations { source_relations }
    }

    /// Solves where the dependency information lines up with the collection,
    /// and fails otherwise.
    fn solve(collection: &Collection, code_info_sets: &Vec<CodeInfoSets>) -> (r: Result<
        Relations,
        String,
    >)
        requires
            node_count(*collection) <= usize::MAX,
        ensures
            match r {
                Ok(rel) => aligned(*collection, code_info_sets@) && solution(
                    *collection,
                    code_info_sets@,
                    rel,
                ),
                Err(_) => !aligned(*collection, code_info_sets@),
            },
    {
        let nl = collection.source_sets.len();
        if code_info_sets.len() != nl {
            return Err(
                String::from_str("Length of langs, src_code_infos, and test_code_infos are not equal"),
            );
        }
        let mut l: usize = 0;
        while l < nl
            invariant
                nl == n_langs(*collection),
                code_info_sets@.len() == nl,
                l <= nl,
                forall|i: int|
                    #![trigger code_info_sets@[i]]
                    0 <= i < l ==> {
                        &&& code_info_sets@[i].lang@ == collection.source_sets@[i].lang@
                        &&& code_info_sets@[i].src_code_infos@.len() == src_len(*collection, i)
                        &&& code_info_sets@[i].test_code_infos@.len() == test_len(*collection, i)
                    },
            decreases nl - l,
        {
            let infos = &code_info_sets[l];
            let paths = &collection.source_sets[l];
            if !infos.lang.eq(&paths.lang) {
                return Err(
                    String::from_str("Languages of code_infos and of the collection are not equal"),
                );
            }
            if infos.src_code_infos.len() != paths.src_paths.len() || infos.test_code_infos.len()
                != paths.test_paths.len() {
                return Err(
                    String::from_str(
                        "Length of src_code_infos and test_code_infos are not equal to the length of paths",
                    ),
                );
            }
            l += 1;
        }
        let solver = RelationInternalSolver::new(collection, code_info_sets);
        Ok(solver.solve_internal())
    }
}

/// Computes, for every source file of every partition, the tests of the
/// same partition that reach it through the dependency graph. Fails when the
/// dependency information does not line up with the collection.
pub fn solve_relation(collection: &Collection, code_info_sets: &Vec<CodeInfoSets>) -> (r: Result<
    Relations,
    String,
>)
    requires
        node_count(*collection) <= usize::MAX,
    ensures
        match r {
            Ok(rel) => aligned(*collection, code_info_sets@) && solution(
                *collection,
                code_info_sets@,
                rel,
            ),
            Err(_) => !aligned(*collection, code_info_sets@),
        },
{
    RelationInternalSolver::solve(collection, code_info_sets)
}

/// The number of files of the collection, where it fits in a `usize`.
pub fn file_count(collection: &Collection) -> (r: Option<usize>)
    ensures
        match r {
            Some(n) => n == node_count(*collection),
            None => node_count(*collection) > usize::MAX,
        },
{
    let ghost c = *collection;
    let nl = collection.source_sets.len();
    let mut total: usize = 0;
    let mut l: usize = 0;
    while l < nl
        invariant
            c == *collection,
            nl == n_langs(c),
            l <= nl,
            total == src_before(c, l as int),
        decreases nl - l,
    {
        let n = collection.source_sets[l].src_paths.len();
        if n > usize::MAX - total {
            proof {
                lemma_before_mono(c, l + 1, nl as int);
                lemma_before_mono(c, 0, nl as int);
            }
            return None;
        }
        total = total + n;
        l += 1;
    }
    let mut l: usize = 0;
    while l < nl
        invariant
            c == *collection,
            nl == n_langs(c),
            l <= nl,
            total == src_before(c, nl as int) + test_before(c, l as int),
        decreases nl - l,
    {
        let n = collection.source_sets[l].test_paths.len();
        if n > usize::MAX - total {
            proof {
                lemma_before_mono(c, l + 1, nl as int);
            }
            return None;
        }
        total = total + n;
        l += 1;
    }
    Some(total)
}

/// A test counts only toward the sources of its own partition: source `k`
/// of partition `l` lists index `j` exactly where test `j` of partition `l`
/// reaches it, so a test `j` of another partition that reaches the source
/// through a shared path adds nothing on its own.
pub proof fn lemma_partition_isolation(
    c: Collection,
    infos: Seq<CodeInfoSets>,
    rel: Relations,
    l: int,
    k: int,
    other: int,
    j: usize,
)
    requires
        solution(c, infos, rel),
        0 <= l < n_langs(c),
        0 <= k < src_len(c, l),
        0 <= other < n_langs(c),
        other != l,
    ensures
        rel.source_relations@[l]@[k].tested_by@.contains(j) <==> (j < test_len(c, l) && reaches(
            c,
            infos,
            CodeIndex::Test(l as usize, j),
            CodeIndex::Src(l as usize, k as usize),
        )),
        reaches(c, infos, CodeIndex::Test(other as usize, j), CodeIndex::Src(l as usize, k as usize))
            && !reaches(
            c,
            infos,
            CodeIndex::Test(l as usize, j),
            CodeIndex::Src(l as usize, k as usize),
        ) ==> !rel.source_relations@[l]@[k].tested_by@.contains(j),
{
    assert(tested_by_exact(c, infos, l, k, rel.source_relations@[l]@[k].tested_by@));
}

} // verus!
