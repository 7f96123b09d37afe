//! A knowledge base builder for annotated source snippets: a line-based
//! document parser and a test-coverage solver over file dependencies.

pub mod articles;
pub mod code_info;
pub mod codelib;
pub mod parser;
pub mod relation_solver;
pub mod repo_collector;
pub mod text;

pub use articles::{collect_code_infos, complete_articles, CompletedArticles};
pub use code_info::{parse_code_info, rooted_path};
pub use codelib::{Article, CodeInfo, CodeInfoSets, Collection, Commit, SourceSets};
pub use parser::{parse_document, ParseError, ParserInternalState, SectionAnchor};
pub use relation_solver::{file_count, solve_relation, CodeIndex, Relations, SourceRelation};
pub use repo_collector::{gather_collection, gather_commit_info};
