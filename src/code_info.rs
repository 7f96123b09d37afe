//! Static dependency extraction: the files that a file includes, as
//! root-relative paths.
use vstd::prelude::*;

use crate::codelib::CodeInfo;
use crate::text::{chars_of, has_prefix_at, range_is, starts_with, string_views};

verus! {

broadcast use vstd::string::group_string_axioms;

/// What the `regex` crate reports as the text of capture group 1 of the
/// leftmost match of `pattern` in `text`; `None` where the pattern does not
/// compile, where nothing matches or where the group takes no part in the match.
pub uninterp spec fn regex_first_group(pattern: Seq<char>, text: Seq<char>) -> Option<Seq<char>>;

/// Relies on `regex::Regex::new`, `Regex::captures`, `Captures::get` and
/// `Match::as_str`: the first group of the leftmost match, a function of the
/// pattern and the text alone.
#[verifier::external_body]
fn first_capture(pattern: &str, text: &str) -> (r: Option<String>)
    ensures
        match r {
            Some(g) => regex_first_group(pattern@, text@) == Some(g@),
            None => regex_first_group(pattern@, text@) is None,
        },
{
    let re = match regex::Regex::new(pattern) {
        Ok(re) => re,
        Err(_) => return None,
    };
    match re.captures(text) {
        Some(caps) => match caps.get(1) {
            Some(m) => Some(m.as_str().to_string()),
            None => None,
        },
        None => None,
    }
}

/// A quoted include: group 1 runs from the quote after the directive to the
/// last quote of the line; an include in angle brackets does not match.
pub open spec fn include_pattern() -> Seq<char> {
    "#include\\s*[\"](.*)[\"]"@
}

/// `p` made root-relative.
pub open spec fn rooted(p: Seq<char>) -> Seq<char> {
    seq!['/'] + p
}

/// The dependency named by one line: a line that starts with `#include`
/// and matches the include pattern names `/` followed by the quoted text.
pub open spec fn include_of(line: Seq<char>) -> Option<Seq<char>> {
    if starts_with(line, "#include"@) {
        match regex_first_group(include_pattern(), line) {
            Some(g) => Some(rooted(g)),
            None => None,
        }
    } else {
        None
    }
}

/// The dependencies named by `lines`, in line order.
pub open spec fn include_deps(lines: Seq<Seq<char>>) -> Seq<Seq<char>>
    decreases lines.len(),
{
    if lines.len() == 0 {
        seq![]
    } else {
        let prev = include_deps(lines.drop_last());
        match include_of(lines.last()) {
            Some(d) => prev.push(d),
            None => prev,
        }
    }
}

/// The root-relative form of `p`: `p` with a `/` in front.
pub fn rooted_path(p: &str) -> (r: String)
    ensures
        r@ == rooted(p@),
{
    let mut r = String::from_str("/");
    r.append(p);
    proof {
        reveal_strlit("/");
        assert(r@ =~= rooted(p@));
    }
    r
}

/// The dependency that one line of a C or C++ file names, if any.
pub fn include_dependency(line: &str) -> (r: Option<String>)
    ensures
        match r {
            Some(d) => include_of(line@) == Some(d@),
            None => include_of(line@) is None,
        },
{
    let cs = chars_of(line);
    let n = cs.len();
    assert(cs@.subrange(0, n as int) =~= line@);
    if !has_prefix_at(&cs, 0, n, "#include") {
        return None;
    }
    match first_capture("#include\\s*[\"](.*)[\"]", line) {
        Some(g) => Some(rooted_path(g.as_str())),
        None => None,
    }
}

/// The dependencies of a C or C++ file with lines `lines`: its quoted includes, in order.
pub fn parse_code_info_cpp(lines: &Vec<String>) -> (r: CodeInfo)
    ensures
        string_views(r.filepath_dependencies@) == include_deps(string_views(lines@)),
{
    let ghost all = string_views(lines@);
    let mut deps: Vec<String> = Vec::new();
    let mut i: usize = 0;
    while i < lines.len()
        invariant
            i <= lines.len(),
            all == string_views(lines@),
            string_views(deps@) == include_deps(all.take(i as int)),
        decreases lines.len() - i,
    {
        assert(all.take(i + 1).drop_last() =~= all.take(i as int));
        assert(all.take(i + 1).last() == lines@[i as int]@);
        match include_dependency(lines[i].as_str()) {
            Some(d) => {
                let ghost before = deps@;
                deps.push(d);
                assert(string_views(deps@) =~= string_views(before).push(d@));
            },
            None => {},
        }
        i += 1;
    }
    assert(all.take(i as int) =~= all);
    CodeInfo { filepath_dependencies: deps }
}

/// The dependencies of a file in language `lang` with lines `lines`: quoted
/// includes for `cpp`, none for any other language.
pub open spec fn code_deps(lang: Seq<char>, lines: Seq<Seq<char>>) -> Seq<Seq<char>> {
    if lang == "cpp"@ {
        include_deps(lines)
    } else {
        seq![]
    }
}

/// The dependencies of a file in language `lang`: quoted includes for `cpp`,
/// none for any other language.
pub fn parse_code_info(lines: &Vec<String>, lang: &str) -> (r: CodeInfo)
    ensures
        string_views(r.filepath_dependencies@) == code_deps(lang@, string_views(lines@)),
{
    let cs = chars_of(lang);
    let n = cs.len();
    assert(cs@.subrange(0, n as int) =~= lang@);
    if range_is(&cs, 0, n, "cpp") {
        parse_code_info_cpp(lines)
    } else {
        let r = CodeInfo { filepath_dependencies: Vec::new() };
        assert(string_views(r.filepath_dependencies@) =~= seq![]);
        r
    }
}

} // verus!
