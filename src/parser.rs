//! The annotated document parser: a line-by-line state machine that collects
//! the documentation sections and the code block of one source file.
use vstd::prelude::*;

use crate::codelib::{Article, ArticleModel, Commit};
use crate::text::{
    string_views,
    back_ws, chars_of, has_prefix_at, range_is, skip_repeated, skip_ws, split_tokens, starts_with,
    strip_repeated, tokens, trim, trim_start, trimmed,
};

verus! {

broadcast use vstd::string::group_string_axioms;

/// The outer annotation region that is open.
#[derive(Clone, Copy, PartialEq, Eq, Structural, Debug)]
pub enum BlockAnchor {
    Code,
    Article,
}

/// A named section of a documentation block.
#[derive(Debug)]
pub enum SectionAnchor {
    Title,
    Overview,
    Usage,
    Require,
    Verified,
    References,
    Words,
    Unknown(String),
}

/// The mathematical value of a [`SectionAnchor`].
pub enum SectionKey {
    Title,
    Overview,
    Usage,
    Require,
    Verified,
    References,
    Words,
    Unknown(Seq<char>),
}

impl View for SectionAnchor {
    type V = SectionKey;

    open spec fn view(&self) -> SectionKey {
        match self {
            SectionAnchor::Title => SectionKey::Title,
            SectionAnchor::Overview => SectionKey::Overview,
            SectionAnchor::Usage => SectionKey::Usage,
            SectionAnchor::Require => SectionKey::Require,
            SectionAnchor::Verified => SectionKey::Verified,
            SectionAnchor::References => SectionKey::References,
            SectionAnchor::Words => SectionKey::Words,
            SectionAnchor::Unknown(s) => SectionKey::Unknown(s@),
        }
    }
}

/// Why a file could not be turned into an article.
#[derive(Debug)]
pub enum ParseError {
    /// `BEGIN DOC` while a block is already open.
    NestedBlockAnchor,
    /// A block directive with a name that is none of the four known ones.
    UnknownDirective(String),
    /// The input ended inside a block.
    UnclosedBlock,
    /// No line was collected into the code block.
    EmptyCode,
    /// No `title` section was recorded.
    MissingTitle,
}

/// The mathematical value of a [`ParseError`].
pub enum ParseFailure {
    NestedBlockAnchor,
    UnknownDirective(Seq<char>),
    UnclosedBlock,
    EmptyCode,
    MissingTitle,
}

impl View for ParseError {
    type V = ParseFailure;

    open spec fn view(&self) -> ParseFailure {
        match self {
            ParseError::NestedBlockAnchor => ParseFailure::NestedBlockAnchor,
            ParseError::UnknownDirective(s) => ParseFailure::UnknownDirective(s@),
            ParseError::UnclosedBlock => ParseFailure::UnclosedBlock,
            ParseError::EmptyCode => ParseFailure::EmptyCode,
            ParseError::MissingTitle => ParseFailure::MissingTitle,
        }
    }
}

/// The parser's state as mathematical values.
pub struct ParserModel {
    pub block: Option<BlockAnchor>,
    pub section: Option<SectionKey>,
    /// The text gathered for the open section.
    pub text: Seq<char>,
    /// Every section recorded so far, in order; a later entry overrides an earlier one of the same key.
    pub sections: Seq<(SectionKey, Seq<char>)>,
    pub code: Seq<char>,
    /// Whether a fenced region of the open section is being read.
    pub verbatim: bool,
}

pub open spec fn initial_model() -> ParserModel {
    ParserModel {
        block: None,
        section: None,
        text: seq![],
        sections: seq![],
        code: seq![],
        verbatim: false,
    }
}

/// The body of a comment line: after leading whitespace the line starts with
/// `#` or `//`; the body follows every repetition of that marker and the
/// whitespace after it.
pub open spec fn comment_body(line: Seq<char>) -> Option<Seq<char>> {
    let t = trim_start(line);
    if starts_with(t, "#"@) {
        Some(trim_start(strip_repeated(t, "#"@)))
    } else if starts_with(t, "//"@) {
        Some(trim_start(strip_repeated(t, "//"@)))
    } else {
        None
    }
}

/// The name of a directive introduced by `marker`, trimmed.
pub open spec fn directive(body: Seq<char>, marker: Seq<char>) -> Option<Seq<char>> {
    if starts_with(body, marker) {
        Some(trim(strip_repeated(body, marker)))
    } else {
        None
    }
}

pub open spec fn fence() -> Seq<char> {
    "```"@
}

pub open spec fn newline() -> Seq<char> {
    "\n"@
}

/// The key of one of the seven recognised section names.
pub open spec fn known_section(name: Seq<char>) -> Option<SectionKey> {
    if name == "title"@ {
        Some(SectionKey::Title)
    } else if name == "overview"@ {
        Some(SectionKey::Overview)
    } else if name == "usage"@ {
        Some(SectionKey::Usage)
    } else if name == "require"@ {
        Some(SectionKey::Require)
    } else if name == "verified"@ {
        Some(SectionKey::Verified)
    } else if name == "references"@ {
        Some(SectionKey::References)
    } else if name == "words"@ {
        Some(SectionKey::Words)
    } else {
        None
    }
}

pub open spec fn section_key(name: Seq<char>) -> SectionKey {
    match known_section(name) {
        Some(k) => k,
        None => SectionKey::Unknown(name),
    }
}

/// Gathers `t` into the open section; text has nowhere to go outside one.
pub open spec fn add_text(s: ParserModel, t: Seq<char>) -> ParserModel {
    if s.block == Some(BlockAnchor::Article) && s.section is Some {
        ParserModel { text: s.text + t, ..s }
    } else {
        s
    }
}

/// Records the open section, if any, with its trimmed text, and closes it.
pub open spec fn flush(s: ParserModel) -> ParserModel {
    ParserModel {
        sections: match s.section {
            Some(k) => s.sections.push((k, trim(s.text))),
            None => s.sections,
        },
        section: None,
        text: seq![],
        ..s
    }
}

/// The effect of one line on the parser.
pub open spec fn consume(s: ParserModel, line: Seq<char>) -> Result<ParserModel, ParseFailure> {
    match comment_body(line) {
        Some(body) => {
            if s.verbatim {
                if body == fence() {
                    Ok(ParserModel { verbatim: false, ..s })
                } else {
                    Ok(add_text(s, line + newline()))
                }
            } else {
                match directive(body, "%="@) {
                    Some(d) => {
                        if d == "BEGIN DOC"@ {
                            if s.block is Some {
                                Err(ParseFailure::NestedBlockAnchor)
                            } else {
                                Ok(ParserModel { block: Some(BlockAnchor::Article), ..s })
                            }
                        } else if d == "BEGIN CODE"@ {
                            Ok(ParserModel { block: Some(BlockAnchor::Code), ..s })
                        } else if d == "END DOC"@ || d == "END CODE"@ {
                            Ok(ParserModel { block: None, ..flush(s) })
                        } else {
                            Err(ParseFailure::UnknownDirective(d))
                        }
                    },
                    None => match directive(body, "%"@) {
                        Some(name) => {
                            if s.block == Some(BlockAnchor::Article) {
                                Ok(ParserModel { section: Some(section_key(name)), ..flush(s) })
                            } else {
                                Ok(s)
                            }
                        },
                        None => {
                            if body == fence() {
                                if s.block == Some(BlockAnchor::Article) {
                                    Ok(ParserModel { verbatim: true, ..s })
                                } else {
                                    Ok(s)
                                }
                            } else {
                                Ok(add_text(s, body + newline()))
                            }
                        },
                    },
                }
            }
        },
        None => {
            if s.block == Some(BlockAnchor::Code) {
                Ok(ParserModel { code: s.code + line + newline(), ..s })
            } else if s.verbatim {
                Ok(add_text(s, line + newline()))
            } else {
                Ok(s)
            }
        },
    }
}

/// The parser after every line of `lines`, or the first error.
pub open spec fn run(s: ParserModel, lines: Seq<Seq<char>>) -> Result<ParserModel, ParseFailure>
    decreases lines.len(),
{
    if lines.len() == 0 {
        Ok(s)
    } else {
        match consume(s, lines[0]) {
            Ok(next) => run(next, lines.drop_first()),
            Err(e) => Err(e),
        }
    }
}

} // verus!

verus! {

/// The text last recorded for section `k`.
pub open spec fn section_text(log: Seq<(SectionKey, Seq<char>)>, k: SectionKey) -> Option<
    Seq<char>,
>
    decreases log.len(),
{
    if log.len() == 0 {
        None
    } else if log.last().0 == k {
        Some(log.last().1)
    } else {
        section_text(log.drop_last(), k)
    }
}

pub open spec fn section_or_empty(log: Seq<(SectionKey, Seq<char>)>, k: SectionKey) -> Seq<char> {
    match section_text(log, k) {
        Some(t) => t,
        None => seq![],
    }
}

/// The article that a finished parser yields, or why there is none.
pub open spec fn article_of(
    s: ParserModel,
    path: Seq<char>,
    lang: Seq<char>,
    commits: Seq<Commit>,
    tested_by: Seq<Seq<char>>,
) -> Result<ArticleModel, ParseFailure> {
    if s.block is Some {
        Err(ParseFailure::UnclosedBlock)
    } else if s.code.len() == 0 {
        Err(ParseFailure::EmptyCode)
    } else {
        match section_text(s.sections, SectionKey::Title) {
            None => Err(ParseFailure::MissingTitle),
            Some(title) => Ok(
                ArticleModel {
                    title,
                    overview: section_or_empty(s.sections, SectionKey::Overview),
                    code: trim(s.code),
                    lang,
                    path,
                    require: section_text(s.sections, SectionKey::Require),
                    references: tokens(section_or_empty(s.sections, SectionKey::References), false),
                    words: tokens(section_or_empty(s.sections, SectionKey::Words), true),
                    verified: tokens(section_or_empty(s.sections, SectionKey::Verified), false),
                    commits,
                    tested_by,
                },
            ),
        }
    }
}

/// The article of a file with lines `lines`: every line is consumed in order,
/// the open section is recorded, and the result is validated.
pub open spec fn document_of(
    lines: Seq<Seq<char>>,
    path: Seq<char>,
    lang: Seq<char>,
    commits: Seq<Commit>,
    tested_by: Seq<Seq<char>>,
) -> Result<ArticleModel, ParseFailure> {
    match run(initial_model(), lines) {
        Ok(s) => article_of(flush(s), path, lang, commits, tested_by),
        Err(e) => Err(e),
    }
}

pub open spec fn outcome_view(r: Result<Article, ParseError>) -> Result<ArticleModel, ParseFailure> {
    match r {
        Ok(a) => Ok(a@),
        Err(e) => Err(e@),
    }
}

/// Where the body of the comment line `cs` starts, if it is one.
fn match_line_as_comment(cs: &Vec<char>) -> (r: Option<usize>)
    ensures
        match comment_body(cs@) {
            Some(b) => r is Some && r->0 <= cs.len() && cs@.subrange(r->0 as int, cs.len() as int)
                == b,
            None => r is None,
        },
{
    let n = cs.len();
    let t = skip_ws(cs, 0, n);
    assert(cs@.subrange(0, n as int) =~= cs@);
    proof {
        reveal_strlit("#");
        reveal_strlit("//");
    }
    if has_prefix_at(cs, t, n, "#") {
        let a = skip_repeated(cs, t, n, "#");
        Some(skip_ws(cs, a, n))
    } else if has_prefix_at(cs, t, n, "//") {
        let a = skip_repeated(cs, t, n, "//");
        Some(skip_ws(cs, a, n))
    } else {
        None
    }
}

/// The bounds of the trimmed name of a directive introduced by `marker` in `cs[b..]`.
fn match_anchor(cs: &Vec<char>, b: usize, marker: &str) -> (r: Option<(usize, usize)>)
    requires
        b <= cs.len(),
        marker@.len() > 0,
    ensures
        match (directive(cs@.subrange(b as int, cs.len() as int), marker@), r) {
            (Some(name), Some((c, d))) => b <= c <= d <= cs.len() && cs@.subrange(c as int, d as int)
                == name,
            (None, None) => true,
            _ => false,
        },
{
    let n = cs.len();
    if has_prefix_at(cs, b, n, marker) {
        let a = skip_repeated(cs, b, n, marker);
        let c = skip_ws(cs, a, n);
        let d = back_ws(cs, c, n);
        Some((c, d))
    } else {
        None
    }
}

/// The name of a block directive (`%=`) in the comment body `cs[b..]`.
fn match_block_anchor(cs: &Vec<char>, b: usize) -> (r: Option<(usize, usize)>)
    requires
        b <= cs.len(),
    ensures
        match (directive(cs@.subrange(b as int, cs.len() as int), "%="@), r) {
            (Some(name), Some((c, d))) => b <= c <= d <= cs.len() && cs@.subrange(c as int, d as int)
                == name,
            (None, None) => true,
            _ => false,
        },
{
    proof {
        reveal_strlit("%=");
    }
    match_anchor(cs, b, "%=")
}

/// The name of a section directive (`%`) in the comment body `cs[b..]`.
fn match_doc_anchor(cs: &Vec<char>, b: usize) -> (r: Option<(usize, usize)>)
    requires
        b <= cs.len(),
    ensures
        match (directive(cs@.subrange(b as int, cs.len() as int), "%"@), r) {
            (Some(name), Some((c, d))) => b <= c <= d <= cs.len() && cs@.subrange(c as int, d as int)
                == name,
            (None, None) => true,
            _ => false,
        },
{
    proof {
        reveal_strlit("%");
    }
    match_anchor(cs, b, "%")
}

impl SectionAnchor {
    /// The section that a recognised name denotes.
    pub fn from_str(s: &str) -> (r: Option<SectionAnchor>)
        ensures
            match known_section(s@) {
                Some(k) => r is Some && r->0@ == k,
                None => r is None,
            },
    {
        let cs = chars_of(s);
        let n = cs.len();
        assert(cs@.subrange(0, n as int) =~= s@);
        if range_is(&cs, 0, n, "title") {
            Some(SectionAnchor::Title)
        } else if range_is(&cs, 0, n, "overview") {
            Some(SectionAnchor::Overview)
        } else if range_is(&cs, 0, n, "usage") {
            Some(SectionAnchor::Usage)
        } else if range_is(&cs, 0, n, "require") {
            Some(SectionAnchor::Require)
        } else if range_is(&cs, 0, n, "verified") {
            Some(SectionAnchor::Verified)
        } else if range_is(&cs, 0, n, "references") {
            Some(SectionAnchor::References)
        } else if range_is(&cs, 0, n, "words") {
            Some(SectionAnchor::Words)
        } else {
            None
        }
    }

    /// Whether two anchors name the same section.
    pub fn same(&self, other: &SectionAnchor) -> (r: bool)
        ensures
            r == (self@ == other@),
    {
        match self {
            SectionAnchor::Title => matches!(other, SectionAnchor::Title),
            SectionAnchor::Overview => matches!(other, SectionAnchor::Overview),
            SectionAnchor::Usage => matches!(other, SectionAnchor::Usage),
            SectionAnchor::Require => matches!(other, SectionAnchor::Require),
            SectionAnchor::Verified => matches!(other, SectionAnchor::Verified),
            SectionAnchor::References => matches!(other, SectionAnchor::References),
            SectionAnchor::Words => matches!(other, SectionAnchor::Words),
            SectionAnchor::Unknown(a) => match other {
                SectionAnchor::Unknown(b) => a.eq(b),
                _ => false,
            },
        }
    }
}

pub open spec fn section_entries(v: Seq<(SectionAnchor, String)>) -> Seq<(SectionKey, Seq<char>)> {
    v.map_values(|e: (SectionAnchor, String)| (e.0@, e.1@))
}

/// The state of the parser between two lines.
pub struct ParserInternalState {
    block_anchor: Option<BlockAnchor>,
    section_anchor: Option<SectionAnchor>,
    parsing_text: String,
    collected_sections: Vec<(SectionAnchor, String)>,
    collected_code: String,
    section_codeblock: bool,
}

impl View for ParserInternalState {
    type V = ParserModel;

    closed spec fn view(&self) -> ParserModel {
        ParserModel {
            block: self.block_anchor,
            section: match &self.section_anchor {
                Some(a) => Some(a@),
                None => None,
            },
            text: self.parsing_text@,
            sections: section_entries(self.collected_sections@),
            code: self.collected_code@,
            verbatim: self.section_codeblock,
        }
    }
}

impl ParserInternalState {
    pub fn new() -> (r: ParserInternalState)
        ensures
            r@ == initial_model(),
    {
        let r = ParserInternalState {
            block_anchor: None,
            section_anchor: None,
            parsing_text: String::new(),
            collected_sections: Vec::new(),
            collected_code: String::new(),
            section_codeblock: false,
        };
        assert(section_entries(r.collected_sections@) =~= seq![]);
        r
    }

    /// Records the open section, if any, and closes it.
    pub fn finish_anchor(&mut self)
        ensures
            final(self)@ == flush(old(self)@),
    {
        match self.section_anchor.take() {
            Some(section) => {
                let t = trimmed(self.parsing_text.as_str());
                let ghost entry = (section@, t@);
                self.collected_sections.push((section, t));
                assert(section_entries(self.collected_sections@) =~= section_entries(
                    old(self).collected_sections@,
                ).push(entry));
            },
            None => {},
        }
        self.parsing_text = String::new();
    }

    /// Gathers `t` and a line break into the open section.
    fn gather(&mut self, t: &str)
        ensures
            final(self)@ == add_text(old(self)@, t@ + newline()),
    {
        if matches!(self.block_anchor, Some(BlockAnchor::Article)) && self.section_anchor.is_some() {
            self.parsing_text.append(t);
            self.parsing_text.append("\n");
            assert(self.parsing_text@ =~= old(self).parsing_text@ + (t@ + newline()));
        }
    }

    /// Consumes one line of input.
    pub fn parse_line(&mut self, line: &str) -> (r: Result<(), ParseError>)
        ensures
            match r {
                Ok(_) => consume(old(self)@, line@) == Ok::<ParserModel, ParseFailure>(final(self)@),
                Err(e) => consume(old(self)@, line@) == Err::<ParserModel, ParseFailure>(e@),
            },
    {
        let cs = chars_of(line);
        let n = cs.len();
        match match_line_as_comment(&cs) {
            Some(b) => {
                if self.section_codeblock {
                    if range_is(&cs, b, n, "```") {
                        self.section_codeblock = false;
                    } else {
                        self.gather(line);
                    }
                } else if let Some((c, d)) = match_block_anchor(&cs, b) {
                    if range_is(&cs, c, d, "BEGIN DOC") {
                        if self.block_anchor.is_some() {
                            return Err(ParseError::NestedBlockAnchor);
                        }
                        self.block_anchor = Some(BlockAnchor::Article);
                    } else if range_is(&cs, c, d, "BEGIN CODE") {
                        self.block_anchor = Some(BlockAnchor::Code);
                    } else if range_is(&cs, c, d, "END DOC") || range_is(&cs, c, d, "END CODE") {
                        self.finish_anchor();
                        self.block_anchor = None;
                    } else {
                        return Err(
                            ParseError::UnknownDirective(String::from_str(line.substring_char(c, d))),
                        );
                    }
                } else if let Some((c, d)) = match_doc_anchor(&cs, b) {
                    if matches!(self.block_anchor, Some(BlockAnchor::Article)) {
                        let name = line.substring_char(c, d);
                        let key = match SectionAnchor::from_str(name) {
                            Some(k) => k,
                            None => SectionAnchor::Unknown(String::from_str(name)),
                        };
                        self.finish_anchor();
                        self.section_anchor = Some(key);
                    }
                } else if range_is(&cs, b, n, "```") {
                    if matches!(self.block_anchor, Some(BlockAnchor::Article)) {
                        self.section_codeblock = true;
                    }
                } else {
                    self.gather(line.substring_char(b, n));
                }
            },
            None => {
                if matches!(self.block_anchor, Some(BlockAnchor::Code)) {
                    self.collected_code.append(line);
                    self.collected_code.append("\n");
                    assert(self.collected_code@ =~= old(self).collected_code@ + line@ + newline());
                } else if self.section_codeblock {
                    self.gather(line);
                }
            },
        }
        Ok(())
    }

    /// Where the text last recorded for `key` stands.
    fn find_section(&self, key: &SectionAnchor) -> (r: Option<usize>)
        ensures
            match r {
                Some(i) => i < self.collected_sections.len() && section_text(self@.sections, key@)
                    == Some(self.collected_sections@[i as int].1@),
                None => section_text(self@.sections, key@) is None,
            },
    {
        let ghost log = self@.sections;
        let mut i = self.collected_sections.len();
        assert(log.take(i as int) =~= log);
        while i > 0
            invariant
                i <= self.collected_sections.len(),
                log == section_entries(self.collected_sections@),
                section_text(log, key@) == section_text(log.take(i as int), key@),
            decreases i,
        {
            assert(log.take(i as int).drop_last() =~= log.take(i - 1));
            if self.collected_sections[i - 1].0.same(key) {
                return Some(i - 1);
            }
            i -= 1;
        }
        None
    }

    /// The recorded text of `key`, or the empty text.
    fn section_or_empty(&self, key: &SectionAnchor) -> (r: String)
        ensures
            r@ == section_or_empty(self@.sections, key@),
    {
        match self.find_section(key) {
            Some(i) => self.collected_sections[i].1.clone(),
            None => String::new(),
        }
    }

    /// The article of a finished parser, or why there is none.
    pub fn generate_article(
        self,
        path: String,
        lang: String,
        commits: Vec<Commit>,
        tested_by: Vec<String>,
    ) -> (r: Result<Article, ParseError>)
        ensures
            outcome_view(r) == article_of(self@, path@, lang@, commits@, string_views(tested_by@)),
    {
        if self.block_anchor.is_some() {
            return Err(ParseError::UnclosedBlock);
        }
        if self.collected_code.as_str().is_empty() {
            return Err(ParseError::EmptyCode);
        }
        let title = match self.find_section(&SectionAnchor::Title) {
            Some(i) => self.collected_sections[i].1.clone(),
            None => {
                return Err(ParseError::MissingTitle);
            },
        };
        let overview = self.section_or_empty(&SectionAnchor::Overview);
        let require = match self.find_section(&SectionAnchor::Require) {
            Some(i) => Some(self.collected_sections[i].1.clone()),
            None => None,
        };
        let references = split_tokens(
            self.section_or_empty(&SectionAnchor::References).as_str(),
            false,
        );
        let words = split_tokens(self.section_or_empty(&SectionAnchor::Words).as_str(), true);
        let verified = split_tokens(
            self.section_or_empty(&SectionAnchor::Verified).as_str(),
            false,
        );
        let code = trimmed(self.collected_code.as_str());
        Ok(
            Article {
                title,
                overview,
                code,
                lang,
                path,
                require,
                references,
                words,
                verified,
                commits,
                tested_by,
            },
        )
    }
}

/// Parses the lines of one annotated source file into its article. `commits`
/// and `tested_by` are handed through to the article as they are.
pub fn parse_document(
    lines: &Vec<String>,
    path: String,
    lang: String,
    commits: Vec<Commit>,
    tested_by: Vec<String>,
) -> (r: Result<Article, ParseError>)
    ensures
        outcome_view(r) == document_of(
            string_views(lines@),
            path@,
            lang@,
            commits@,
            string_views(tested_by@),
        ),
{
    let ghost all = string_views(lines@);
    let mut state = ParserInternalState::new();
    let mut i: usize = 0;
    assert(all.skip(0) =~= all);
    while i < lines.len()
        invariant
            i <= lines.len(),
            all == string_views(lines@),
            run(initial_model(), all) == run(state@, all.skip(i as int)),
        decreases lines.len() - i,
    {
        assert(all.skip(i as int).drop_first() =~= all.skip(i + 1));
        match state.parse_line(lines[i].as_str()) {
            Ok(()) => {},
            Err(e) => {
                return Err(e);
            },
        }
        i += 1;
    }
    assert(all.skip(i as int) =~= Seq::<Seq<char>>::empty());
    state.finish_anchor();
    state.generate_article(path, lang, commits, tested_by)
}


/// The text that describes a parse failure.
pub open spec fn failure_message(e: ParseFailure) -> Seq<char> {
    match e {
        ParseFailure::NestedBlockAnchor => "Nested block anchor is not allowed"@,
        ParseFailure::UnknownDirective(name) => "Unknown block anchor: "@ + name,
        ParseFailure::UnclosedBlock => "Block anchor is not closed"@,
        ParseFailure::EmptyCode => "Code block is empty"@,
        ParseFailure::MissingTitle => "Title is required"@,
    }
}

impl ParseError {
    /// A description of the failure for people.
    pub fn message(&self) -> (r: String)
        ensures
            r@ == failure_message(self@),
    {
        match self {
            ParseError::NestedBlockAnchor => String::from_str("Nested block anchor is not allowed"),
            ParseError::UnknownDirective(name) => {
                let mut r = String::from_str("Unknown block anchor: ");
                r.append(name.as_str());
                r
            },
            ParseError::UnclosedBlock => String::from_str("Block anchor is not closed"),
            ParseError::EmptyCode => String::from_str("Code block is empty"),
            ParseError::MissingTitle => String::from_str("Title is required"),
        }
    }
}


/// Inside a fenced region of an open documentation section, every line but
/// the closing fence is kept as it stands, with its line break: a line that
/// looks like a directive is not interpreted.
pub proof fn lemma_fenced_line_kept(s: ParserModel, line: Seq<char>)
    requires
        s.verbatim,
        s.block == Some(BlockAnchor::Article),
        s.section is Some,
        comment_body(line) != Some(fence()),
    ensures
        consume(s, line) == Ok::<ParserModel, ParseFailure>(
            ParserModel { text: s.text + line + newline(), ..s },
        ),
{
    assert(s.text + (line + newline()) =~= s.text + line + newline());
}

/// The closing fence ends the fenced region and adds no text.
pub proof fn lemma_fence_closes(s: ParserModel, line: Seq<char>)
    requires
        s.verbatim,
        comment_body(line) == Some(fence()),
    ensures
        consume(s, line) == Ok::<ParserModel, ParseFailure>(ParserModel { verbatim: false, ..s }),
{
}


/// A file whose lines all parse but that ends inside a block is refused as
/// unclosed, whatever else it holds.
pub proof fn lemma_unclosed_block_fails(
    lines: Seq<Seq<char>>,
    path: Seq<char>,
    lang: Seq<char>,
    commits: Seq<Commit>,
    tested_by: Seq<Seq<char>>,
    s: ParserModel,
)
    requires
        run(initial_model(), lines) == Ok::<ParserModel, ParseFailure>(s),
        s.block is Some,
    ensures
        document_of(lines, path, lang, commits, tested_by) == Err::<ArticleModel, ParseFailure>(
            ParseFailure::UnclosedBlock,
        ),
{
}

/// A file whose blocks are all closed but that gathered no code line is
/// refused for its empty code, whatever its documentation holds.
pub proof fn lemma_empty_code_fails(
    lines: Seq<Seq<char>>,
    path: Seq<char>,
    lang: Seq<char>,
    commits: Seq<Commit>,
    tested_by: Seq<Seq<char>>,
    s: ParserModel,
)
    requires
        run(initial_model(), lines) == Ok::<ParserModel, ParseFailure>(s),
        s.block is None,
        s.code.len() == 0,
    ensures
        document_of(lines, path, lang, commits, tested_by) == Err::<ArticleModel, ParseFailure>(
            ParseFailure::EmptyCode,
        ),
{
}

/// A file with closed blocks and some code, but with no `title` section
/// (in particular one without any documentation block), is refused for its
/// missing title.
pub proof fn lemma_missing_title_fails(
    lines: Seq<Seq<char>>,
    path: Seq<char>,
    lang: Seq<char>,
    commits: Seq<Commit>,
    tested_by: Seq<Seq<char>>,
    s: ParserModel,
)
    requires
        run(initial_model(), lines) == Ok::<ParserModel, ParseFailure>(s),
        s.block is None,
        s.code.len() > 0,
        section_text(flush(s).sections, SectionKey::Title) is None,
    ensures
        document_of(lines, path, lang, commits, tested_by) == Err::<ArticleModel, ParseFailure>(
            ParseFailure::MissingTitle,
        ),
{
}


/// `line` is a `BEGIN DOC` directive.
pub open spec fn opens_doc(line: Seq<char>) -> bool {
    match comment_body(line) {
        Some(body) => directive(body, "%="@) == Some("BEGIN DOC"@),
        None => false,
    }
}

/// No documentation block was ever opened: nothing is or was recorded.
pub open spec fn undocumented(s: ParserModel) -> bool {
    &&& s.block != Some(BlockAnchor::Article)
    &&& s.section is None
    &&& s.sections.len() == 0
    &&& !s.verbatim
}

proof fn lemma_undocumented_run(s: ParserModel, lines: Seq<Seq<char>>, t: ParserModel)
    requires
        undocumented(s),
        forall|i: int| 0 <= i < lines.len() ==> !opens_doc(#[trigger] lines[i]),
        run(s, lines) == Ok::<ParserModel, ParseFailure>(t),
    ensures
        undocumented(t),
    decreases lines.len(),
{
    if lines.len() > 0 {
        assert(!opens_doc(lines[0]));
        match consume(s, lines[0]) {
            Ok(next) => {
                assert(undocumented(next));
                let rest = lines.drop_first();
                assert forall|i: int| 0 <= i < rest.len() implies !opens_doc(#[trigger] rest[i]) by {
                    assert(rest[i] == lines[i + 1]);
                };
                lemma_undocumented_run(next, rest, t);
            },
            Err(_) => {},
        }
    }
}

/// A file with closed blocks and some code but without any documentation
/// block is refused for its missing title.
pub proof fn lemma_undocumented_file_fails(
    lines: Seq<Seq<char>>,
    path: Seq<char>,
    lang: Seq<char>,
    commits: Seq<Commit>,
    tested_by: Seq<Seq<char>>,
    s: ParserModel,
)
    requires
        forall|i: int| 0 <= i < lines.len() ==> !opens_doc(#[trigger] lines[i]),
        run(initial_model(), lines) == Ok::<ParserModel, ParseFailure>(s),
        s.block is None,
        s.code.len() > 0,
    ensures
        document_of(lines, path, lang, commits, tested_by) == Err::<ArticleModel, ParseFailure>(
            ParseFailure::MissingTitle,
        ),
{
    lemma_undocumented_run(initial_model(), lines, s);
    assert(flush(s).sections.len() == 0);
}

} // verus!
