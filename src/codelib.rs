use vstd::prelude::*;

use crate::text::string_views;

verus! {

/// One entry of a file's commit history.
#[derive(Debug)]
pub struct Commit {
    pub sha: String,
    pub date: String,
    pub message: String,
}

/// The document extracted from one annotated source file.
#[derive(Debug)]
pub struct Article {
    pub title: String,
    pub overview: String,
    pub code: String,
    pub lang: String,
    pub path: String,
    pub require: Option<String>,
    pub references: Vec<String>,
    pub words: Vec<String>,
    pub verified: Vec<String>,
    pub commits: Vec<Commit>,
    pub tested_by: Vec<String>,
}

/// The mathematical value of an [`Article`].
pub struct ArticleModel {
    pub title: Seq<char>,
    pub overview: Seq<char>,
    pub code: Seq<char>,
    pub lang: Seq<char>,
    pub path: Seq<char>,
    pub require: Option<Seq<char>>,
    pub references: Seq<Seq<char>>,
    pub words: Seq<Seq<char>>,
    pub verified: Seq<Seq<char>>,
    pub commits: Seq<Commit>,
    pub tested_by: Seq<Seq<char>>,
}

impl View for Article {
    type V = ArticleModel;

    open spec fn view(&self) -> ArticleModel {
        ArticleModel {
            title: self.title@,
            overview: self.overview@,
            code: self.code@,
            lang: self.lang@,
            path: self.path@,
            require: match &self.require {
                Some(r) => Some(r@),
                None => None,
            },
            references: string_views(self.references@),
            words: string_views(self.words@),
            verified: string_views(self.verified@),
            commits: self.commits@,
            tested_by: string_views(self.tested_by@),
        }
    }
}

/// The files that one file statically depends on, as root-relative paths.
#[derive(Debug)]
pub struct CodeInfo {
    pub filepath_dependencies: Vec<String>,
}

/// The dependency information of every file of one language partition.
pub struct CodeInfoSets {
    pub lang: String,
    pub src_code_infos: Vec<CodeInfo>,
    pub test_code_infos: Vec<CodeInfo>,
}

/// The source and test paths of one language partition.
#[derive(Debug)]
pub struct SourceSets {
    pub lang: String,
    pub src_paths: Vec<String>,
    pub test_paths: Vec<String>,
}

/// A repository root with its language partitions, in order.
pub struct Collection {
    pub base_path: String,
    pub source_sets: Vec<SourceSets>,
}

/// `base` joined with `path`: a `/` is put between them unless `path` already starts with one.
pub open spec fn joined_path(base: Seq<char>, path: Seq<char>) -> Seq<char> {
    if path.len() > 0 && path[0] == '/' {
        base + path
    } else {
        base + seq!['/'] + path
    }
}

impl Collection {
    /// The full path of a root-relative path of this collection.
    pub fn complete_path_str(&self, path: &str) -> (r: String)
        ensures
            r@ == joined_path(self.base_path@, path@),
    {
        let mut r = self.base_path.clone();
        if path.unicode_len() > 0 && path.get_char(0) == '/' {
            r.append(path);
        } else {
            r.append("/");
            r.append(path);
            proof {
                reveal_strlit("/");
                assert(r@ == self.base_path@ + seq!['/'] + path@);
            }
        }
        r
    }
}

} // verus!
