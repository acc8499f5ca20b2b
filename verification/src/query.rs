//! The parameters of one run.

use crate::candidate::{normalized_extensions, parse_ext_list};
use crate::pattern::{pattern_compiles, ContentPattern, PatternError};
use vstd::prelude::*;
use vstd::string::*;

verus! {

/// The byte cap that applies where none is given.
pub const DEFAULT_MAX_BYTES: u64 = 2_000_000;

/// What a run searches for, and how. It is made once and only read after.
pub struct Query {
    /// The directory where the traversal starts.
    pub dir: String,
    /// The text that a file name must contain, whatever the case.
    pub name: Option<String>,
    /// The pattern that a file's content must match.
    pub content: Option<ContentPattern>,
    /// Whether the content of PDF files is searched.
    pub include_pdf: bool,
    /// The largest text file, in bytes, whose content is read.
    pub max_bytes: u64,
    /// The extensions, in lower case, to which the traversal is held.
    pub allowed_ext: Option<Vec<String>>,
    /// The largest number of matches to hand out.
    pub limit: Option<usize>,
    /// Whether failures to read a PDF are reported.
    pub verbose: bool,
}

/// The mathematical content of a `Query`.
pub struct QueryView {
    pub dir: Seq<char>,
    pub name: Option<Seq<char>>,
    pub content: Option<Seq<char>>,
    pub include_pdf: bool,
    pub max_bytes: u64,
    pub allowed_ext: Option<Seq<Seq<char>>>,
    pub limit: Option<usize>,
    pub verbose: bool,
}

impl View for Query {
    type V = QueryView;

    open spec fn view(&self) -> QueryView {
        QueryView {
            dir: self.dir@,
            name: self.name.deep_view(),
            content: match self.content {
                Some(pattern) => Some(pattern@),
                None => None,
            },
            include_pdf: self.include_pdf,
            max_bytes: self.max_bytes,
            allowed_ext: self.allowed_ext.deep_view(),
            limit: self.limit,
            verbose: self.verbose,
        }
    }
}

/// The allow-list that an optional comma-separated string stands for.
pub open spec fn allow_list_of(ext: Option<Seq<char>>) -> Option<Seq<Seq<char>>> {
    match ext {
        Some(s) => Some(normalized_extensions(s)),
        None => None,
    }
}

/// The given string where there is one.
pub open spec fn text_of_option(s: Option<&str>) -> Option<Seq<char>> {
    match s {
        Some(text) => Some(text@),
        None => None,
    }
}

impl Query {
    /// The query for these parameters and this compiled content pattern,
    /// with the extension list normalized.
    pub fn with_pattern(
        dir: &str,
        name: Option<&str>,
        content: Option<ContentPattern>,
        include_pdf: bool,
        max_bytes: u64,
        ext: Option<&str>,
        limit: Option<usize>,
        verbose: bool,
    ) -> (q: Query)
        ensures
            q@ == (QueryView {
                dir: dir@,
                name: text_of_option(name),
                content: match content {
                    Some(pattern) => Some(pattern@),
                    None => None,
                },
                include_pdf,
                max_bytes,
                allowed_ext: allow_list_of(text_of_option(ext)),
                limit,
                verbose,
            }),
    {
        let allowed_ext = match ext {
            Some(e) => Some(parse_ext_list(e)),
            None => None,
        };
        let name = match name {
            Some(n) => Some(n.to_owned()),
            None => None,
        };
        Query {
            dir: dir.to_owned(),
            name,
            content,
            include_pdf,
            max_bytes,
            allowed_ext,
            limit,
            verbose,
        }
    }

    /// The query for these parameters, with the content pattern compiled and
    /// the extension list normalized. The query is refused exactly where
    /// there is a content pattern and it does not compile.
    pub fn new(
        dir: &str,
        name: Option<&str>,
        content: Option<&str>,
        include_pdf: bool,
        max_bytes: u64,
        ext: Option<&str>,
        limit: Option<usize>,
        verbose: bool,
    ) -> (r: Result<Query, PatternError>)
        ensures
            r is Ok <==> (content matches Some(c) ==> pattern_compiles(c@)),
            r matches Ok(q) ==> q@ == (QueryView {
                dir: dir@,
                name: text_of_option(name),
                content: text_of_option(content),
                include_pdf,
                max_bytes,
                allowed_ext: allow_list_of(text_of_option(ext)),
                limit,
                verbose,
            }),
    {
        let pattern = match content {
            Some(c) => match ContentPattern::compile(c) {
                Ok(p) => Some(p),
                Err(e) => {
                    return Err(e);
                },
            },
            None => None,
        };
        Ok(Query::with_pattern(dir, name, pattern, include_pdf, max_bytes, ext, limit, verbose))
    }
}

} // verus!
