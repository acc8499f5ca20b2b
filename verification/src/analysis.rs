//! The analysis of one candidate file.
//!
//! Reading a file and extracting the text of a PDF are the caller's work. The
//! decisions are made here: `begin` says what a candidate needs, and
//! `after_stat`, `after_read` and `after_extract` take what the caller found
//! and say how the analysis goes on or ends. Every analysis ends in a
//! `FileOutcome`: the handling class of the file, for the statistics, and the
//! match, if there is one.

use crate::candidate::{is_pdf_name, is_text_name, CandidateFile, CandidateView};
use crate::pattern::{find_first, first_match, ContentPattern};
use crate::query::{Query, QueryView};
use crate::snippet::{snippet_around_match, snippet_of};
use crate::text::{contains, is_substring, lowercased, string_from_utf8, to_lowercase};
use vstd::prelude::*;
use vstd::string::*;
use vstd::utf8::{decode_utf8, valid_utf8};

verus! {

/// How many bytes before and behind a match an excerpt reaches.
pub const SNIPPET_CONTEXT: usize = 40;

/// The largest number of characters in an excerpt.
pub const SNIPPET_MAX_CHARS: usize = 120;

/// What became of a file whose content was asked for.
#[derive(Debug, Clone, Copy, PartialEq, Eq, Structural)]
pub enum HandlingClass {
    /// Read and decoded as text, then searched.
    ScannedText,
    /// Its text extracted as a PDF, then searched.
    ScannedPdf,
    /// Not eligible for a content search under the query's options.
    SkippedNonText,
    /// Longer than the byte cap; never read.
    SkippedTooLarge,
    /// Read, but not valid UTF-8.
    SkippedNonUtf8,
    /// A text file that could not be read, or whose analysis crashed.
    SkippedUnreadableText,
    /// A PDF whose text could not be extracted, or whose analysis crashed.
    SkippedUnreadablePdf,
}

/// One file that matched.
#[derive(Debug, Clone, PartialEq, Eq)]
pub struct MatchResult {
    /// The path of the file.
    pub path: String,
    /// Whether the file's name contains the name query.
    pub matched_name: bool,
    /// Whether the file's content matches the content pattern.
    pub matched_content: bool,
    /// An excerpt around the first match in the content.
    pub snippet: Option<String>,
}

/// The mathematical content of a `MatchResult`.
pub struct MatchView {
    pub path: Seq<char>,
    pub matched_name: bool,
    pub matched_content: bool,
    pub snippet: Option<Seq<char>>,
}

impl View for MatchResult {
    type V = MatchView;

    open spec fn view(&self) -> MatchView {
        MatchView {
            path: self.path@,
            matched_name: self.matched_name,
            matched_content: self.matched_content,
            snippet: self.snippet.deep_view(),
        }
    }
}

impl DeepView for MatchResult {
    type V = MatchView;

    open spec fn deep_view(&self) -> MatchView {
        self@
    }
}

/// How the analysis of one file ended.
#[derive(Debug, Clone, PartialEq, Eq)]
pub struct FileOutcome {
    /// The handling class; `None` where no content was asked for.
    pub class: Option<HandlingClass>,
    /// The match, if the file matched.
    pub result: Option<MatchResult>,
}

/// The mathematical content of a `FileOutcome`.
pub struct OutcomeView {
    pub class: Option<HandlingClass>,
    pub result: Option<MatchView>,
}

impl View for FileOutcome {
    type V = OutcomeView;

    open spec fn view(&self) -> OutcomeView {
        OutcomeView {
            class: self.class,
            result: self.result.deep_view(),
        }
    }
}

impl DeepView for FileOutcome {
    type V = OutcomeView;

    open spec fn deep_view(&self) -> OutcomeView {
        self@
    }
}

/// What the analysis of a file needs next.
#[derive(Debug, Clone, PartialEq, Eq)]
pub enum Step {
    /// Nothing: the analysis has ended.
    Done(FileOutcome),
    /// The length of the file in bytes, for `after_stat`.
    Stat,
    /// The content of the file, of which no more than `limit` bytes are to be
    /// read, for `after_read`.
    Read { limit: u64 },
    /// The text of the PDF, for `after_extract`.
    Extract,
}

/// The mathematical content of a `Step`.
pub enum StepView {
    Done(OutcomeView),
    Stat,
    Read { limit: u64 },
    Extract,
}

impl View for Step {
    type V = StepView;

    open spec fn view(&self) -> StepView {
        match self {
            Step::Done(outcome) => StepView::Done(outcome@),
            Step::Stat => StepView::Stat,
            Step::Read { limit } => StepView::Read { limit: *limit },
            Step::Extract => StepView::Extract,
        }
    }
}

/// Whether a file name contains the name query, both taken in lower case.
/// Without a name query no name matches.
pub open spec fn name_hit(file_name: Seq<char>, name_query: Option<Seq<char>>) -> bool {
    match name_query {
        Some(q) => is_substring(lowercased(q), lowercased(file_name)),
        None => false,
    }
}

/// The match of a file whose content was not searched: one by name, where
/// there is a name query and the name matched.
pub open spec fn name_only_match(
    path: Seq<char>,
    has_name_query: bool,
    matched_name: bool,
) -> Option<MatchView> {
    if has_name_query && matched_name {
        Some(MatchView { path, matched_name, matched_content: false, snippet: None })
    } else {
        None
    }
}

/// The match of a file whose text was searched, `span` being the first match
/// of the content pattern in it: one by content, with its excerpt, where the
/// pattern matched; else one by name, where the name matched.
pub open spec fn content_match(
    path: Seq<char>,
    matched_name: bool,
    text: Seq<char>,
    span: Option<(usize, usize)>,
) -> Option<MatchView> {
    match span {
        Some(found) => Some(
            MatchView {
                path,
                matched_name,
                matched_content: true,
                snippet: Some(
                    snippet_of(
                        text,
                        found.0 as int,
                        found.1 as int,
                        SNIPPET_CONTEXT as int,
                        SNIPPET_MAX_CHARS as int,
                    ),
                ),
            },
        ),
        None => if matched_name {
            Some(MatchView { path, matched_name, matched_content: false, snippet: None })
        } else {
            None
        },
    }
}

/// Whether a file is kept out of the content search. A PDF is, unless the
/// query includes PDFs: an allow-list that names `pdf` does not change that.
/// Another file is where there is no allow-list and its extension is none of
/// those taken for text.
pub open spec fn content_skipped(
    pdf: bool,
    probably_text: bool,
    has_allow_list: bool,
    include_pdf: bool,
) -> bool {
    if pdf {
        !include_pdf
    } else {
        !has_allow_list && !probably_text
    }
}

/// The outcome of a file whose content is not searched.
pub open spec fn name_only_outcome(
    file: CandidateView,
    query: QueryView,
    class: Option<HandlingClass>,
) -> OutcomeView {
    OutcomeView {
        class,
        result: name_only_match(
            file.path,
            query.name is Some,
            name_hit(file.file_name, query.name),
        ),
    }
}

/// The outcome of a file whose text was searched for `pattern`.
pub open spec fn searched_outcome(
    file: CandidateView,
    query: QueryView,
    class: HandlingClass,
    pattern: Seq<char>,
    text: Seq<char>,
) -> OutcomeView {
    OutcomeView {
        class: Some(class),
        result: content_match(
            file.path,
            name_hit(file.file_name, query.name),
            text,
            first_match(pattern, text),
        ),
    }
}

/// What `begin` answers.
pub open spec fn begin_spec(file: CandidateView, query: QueryView) -> StepView {
    if query.content is None {
        StepView::Done(name_only_outcome(file, query, None))
    } else if content_skipped(
        is_pdf_name(file.file_name),
        is_text_name(file.file_name),
        query.allowed_ext is Some,
        query.include_pdf,
    ) {
        StepView::Done(name_only_outcome(file, query, Some(HandlingClass::SkippedNonText)))
    } else if is_pdf_name(file.file_name) {
        StepView::Extract
    } else {
        StepView::Stat
    }
}

/// What `after_stat` answers; `length` is `None` where the file's metadata
/// could not be read.
pub open spec fn after_stat_spec(
    file: CandidateView,
    query: QueryView,
    length: Option<u64>,
) -> StepView {
    if query.content is None {
        StepView::Done(name_only_outcome(file, query, None))
    } else {
        match length {
            None => StepView::Done(
                name_only_outcome(file, query, Some(HandlingClass::SkippedUnreadableText)),
            ),
            Some(len) => if len > query.max_bytes {
                StepView::Done(name_only_outcome(file, query, Some(HandlingClass::SkippedTooLarge)))
            } else {
                StepView::Read { limit: query.max_bytes }
            },
        }
    }
}

/// The bytes that count of what was read: no more than the first `cap`.
pub open spec fn capped(bytes: Seq<u8>, cap: u64) -> Seq<u8> {
    if bytes.len() > cap {
        bytes.take(cap as int)
    } else {
        bytes
    }
}

/// What `after_read` answers; `bytes` is `None` where the file could not be
/// opened or read.
pub open spec fn after_read_spec(
    file: CandidateView,
    query: QueryView,
    bytes: Option<Seq<u8>>,
) -> OutcomeView {
    match query.content {
        None => name_only_outcome(file, query, None),
        Some(pattern) => match bytes {
            None => name_only_outcome(file, query, Some(HandlingClass::SkippedUnreadableText)),
            Some(b) => if valid_utf8(capped(b, query.max_bytes)) {
                searched_outcome(
                    file,
                    query,
                    HandlingClass::ScannedText,
                    pattern,
                    decode_utf8(capped(b, query.max_bytes)),
                )
            } else {
                name_only_outcome(file, query, Some(HandlingClass::SkippedNonUtf8))
            },
        },
    }
}

/// What `after_extract` answers; `text` is `None` where the extraction
/// failed in whatever way.
pub open spec fn after_extract_spec(
    file: CandidateView,
    query: QueryView,
    text: Option<Seq<char>>,
) -> OutcomeView {
    match query.content {
        None => name_only_outcome(file, query, None),
        Some(pattern) => match text {
            None => name_only_outcome(file, query, Some(HandlingClass::SkippedUnreadablePdf)),
            Some(t) => searched_outcome(file, query, HandlingClass::ScannedPdf, pattern, t),
        },
    }
}

/// What `after_crash` answers.
pub open spec fn after_crash_spec(file: CandidateView) -> OutcomeView {
    OutcomeView {
        class: Some(
            if is_pdf_name(file.file_name) {
                HandlingClass::SkippedUnreadablePdf
            } else {
                HandlingClass::SkippedUnreadableText
            },
        ),
        result: None,
    }
}

/// What holds of every match that an analysis of `file` under `query` gives:
/// it names the file; it says that the name matched only where there is a
/// name query that the name contains, and that the content matched only
/// where there is a content pattern; one of the two did match; and it has
/// an excerpt exactly where the content matched.
pub open spec fn is_match_of(m: MatchView, file: CandidateView, query: QueryView) -> bool {
    &&& m.path == file.path
    &&& m.matched_name == name_hit(file.file_name, query.name)
    &&& m.matched_name ==> query.name is Some
    &&& m.matched_content ==> query.content is Some
    &&& m.matched_name || m.matched_content
    &&& m.snippet is Some <==> m.matched_content
}

/// Every match that an analysis gives is a match of the file under the
/// query, however the analysis went.
pub proof fn lemma_matches_are_well_formed(
    file: CandidateView,
    query: QueryView,
    length: Option<u64>,
    bytes: Option<Seq<u8>>,
    text: Option<Seq<char>>,
)
    ensures
        begin_spec(file, query) matches StepView::Done(o) ==> (o.result matches Some(m)
            ==> is_match_of(m, file, query)),
        after_stat_spec(file, query, length) matches StepView::Done(o) ==> (o.result matches Some(
            m,
        ) ==> is_match_of(m, file, query)),
        after_read_spec(file, query, bytes).result matches Some(m) ==> is_match_of(m, file, query),
        after_extract_spec(file, query, text).result matches Some(m) ==> is_match_of(
            m,
            file,
            query,
        ),
        after_crash_spec(file).result is None,
{
}

/// With a content query every analysis ends in a handling class, whatever
/// the caller found; without one, only a crash is classed.
pub proof fn lemma_content_query_classifies(
    file: CandidateView,
    query: QueryView,
    length: Option<u64>,
    bytes: Option<Seq<u8>>,
    text: Option<Seq<char>>,
)
    ensures
        begin_spec(file, query) matches StepView::Done(o) ==> (o.class is Some
            <==> query.content is Some),
        after_stat_spec(file, query, length) matches StepView::Done(o) ==> (o.class is Some
            <==> query.content is Some),
        after_read_spec(file, query, bytes).class is Some <==> query.content is Some,
        after_extract_spec(file, query, text).class is Some <==> query.content is Some,
        after_crash_spec(file).class is Some,
{
}

/// A file longer than the byte cap, if only by one byte, is classed as too
/// large and nothing of it is read; a file of exactly the cap is read, and
/// the read is allowed the whole of it.
pub proof fn lemma_byte_cap_boundary(file: CandidateView, query: QueryView, len: u64)
    requires
        query.content is Some,
    ensures
        len > query.max_bytes ==> after_stat_spec(file, query, Some(len)) == StepView::Done(
            name_only_outcome(file, query, Some(HandlingClass::SkippedTooLarge)),
        ),
        len <= query.max_bytes ==> after_stat_spec(file, query, Some(len)) == (StepView::Read {
            limit: query.max_bytes,
        }),
        forall|bytes: Seq<u8>| bytes.len() <= query.max_bytes ==> capped(bytes, query.max_bytes) == bytes,
{
}

/// Whether a file name contains the name query, whatever the case.
pub fn matches_name(file_name: &str, name_query: &Option<String>) -> (r: bool)
    ensures
        r == name_hit(file_name@, name_query.deep_view()),
{
    match name_query {
        Some(q) => {
            let name = to_lowercase(file_name);
            let wanted = to_lowercase(q.as_str());
            contains(name.as_str(), wanted.as_str())
        },
        None => false,
    }
}

/// The match of a file whose content was not searched.
pub fn some_if_name_only(path: &str, has_name_query: bool, matched_name: bool) -> (r: Option<
    MatchResult,
>)
    ensures
        r.deep_view() == name_only_match(path@, has_name_query, matched_name),
{
    if has_name_query && matched_name {
        Some(
            MatchResult {
                path: path.to_owned(),
                matched_name,
                matched_content: false,
                snippet: None,
            },
        )
    } else {
        None
    }
}

/// The match of a file in whose `text` the content pattern was searched,
/// `span` being the first match found.
pub fn match_in_text(path: &str, matched_name: bool, text: &str, span: Option<(usize, usize)>) -> (r:
    Option<MatchResult>)
    requires
        span matches Some(found) ==> found.0 <= found.1,
    ensures
        r.deep_view() == content_match(path@, matched_name, text@, span),
        r matches Some(m) ==> (m.snippet matches Some(excerpt) ==> excerpt@.len()
            <= SNIPPET_MAX_CHARS),
{
    match span {
        Some(found) => {
            let excerpt = snippet_around_match(
                text,
                found.0,
                found.1,
                SNIPPET_CONTEXT,
                SNIPPET_MAX_CHARS,
            );
            Some(
                MatchResult {
                    path: path.to_owned(),
                    matched_name,
                    matched_content: true,
                    snippet: Some(excerpt),
                },
            )
        },
        None => some_if_name_only(path, true, matched_name),
    }
}

/// Whether a file is kept out of the content search.
pub fn skips_content(pdf: bool, probably_text: bool, has_allow_list: bool, include_pdf: bool) -> (r:
    bool)
    ensures
        r == content_skipped(pdf, probably_text, has_allow_list, include_pdf),
{
    if pdf {
        !include_pdf
    } else {
        !has_allow_list && !probably_text
    }
}

/// The outcome of a file whose content is not searched.
fn name_only(file: &CandidateFile, query: &Query, class: Option<HandlingClass>) -> (r: FileOutcome)
    ensures
        r@ == name_only_outcome(file@, query@, class),
{
    let matched_name = matches_name(file.file_name.as_str(), &query.name);
    FileOutcome {
        class,
        result: some_if_name_only(file.path.as_str(), query.name.is_some(), matched_name),
    }
}

/// Starts the analysis of a candidate: says whether it ends at once, on the
/// name alone, or which content the caller is to fetch.
pub fn begin(file: &CandidateFile, query: &Query) -> (r: Step)
    ensures
        r@ == begin_spec(file@, query@),
        r matches Step::Done(o) ==> (o.class is Some <==> query@.content is Some),
{
    if query.content.is_none() {
        return Step::Done(name_only(file, query, None));
    }
    let pdf = file.is_pdf();
    let probably_text = file.is_probably_text();
    if skips_content(pdf, probably_text, query.allowed_ext.is_some(), query.include_pdf) {
        Step::Done(name_only(file, query, Some(HandlingClass::SkippedNonText)))
    } else if pdf {
        Step::Extract
    } else {
        Step::Stat
    }
}

/// Goes on with a text file once its length is known; `length` is `None`
/// where the metadata could not be read. A file longer than the byte cap
/// ends here, unread.
pub fn after_stat(file: &CandidateFile, query: &Query, length: Option<u64>) -> (r: Step)
    ensures
        r@ == after_stat_spec(file@, query@, length),
        r matches Step::Done(o) ==> (o.class is Some <==> query@.content is Some),
{
    if query.content.is_none() {
        return Step::Done(name_only(file, query, None));
    }
    match length {
        None => Step::Done(name_only(file, query, Some(HandlingClass::SkippedUnreadableText))),
        Some(len) => {
            if len > query.max_bytes {
                Step::Done(name_only(file, query, Some(HandlingClass::SkippedTooLarge)))
            } else {
                Step::Read { limit: query.max_bytes }
            }
        },
    }
}

/// Ends the analysis of a file whose text is at hand: searches it for the
/// content pattern.
fn search_text(
    file: &CandidateFile,
    query: &Query,
    pattern: &ContentPattern,
    class: HandlingClass,
    text: &str,
) -> (r: FileOutcome)
    ensures
        r@ == searched_outcome(file@, query@, class, pattern@, text@),
{
    let matched_name = matches_name(file.file_name.as_str(), &query.name);
    let span = find_first(pattern, text);
    FileOutcome {
        class: Some(class),
        result: match_in_text(file.path.as_str(), matched_name, text, span),
    }
}

/// What counts of the bytes that were read: no more than the byte cap allows.
fn within_cap(bytes: Vec<u8>, cap: u64) -> (r: Vec<u8>)
    ensures
        r@ == capped(bytes@, cap),
{
    let mut bytes = bytes;
    let ghost read = bytes@;
    if bytes.len() as u64 > cap {
        bytes.truncate(cap as usize);
        assert(bytes@ =~= read.take(cap as int));
    }
    bytes
}

/// Ends the analysis of a text file with what was read of it; `bytes` is
/// `None` where the file could not be opened or read. Of the bytes no more
/// count than the byte cap allows, and they count as text only if all of
/// them together are valid UTF-8.
pub fn after_read(file: &CandidateFile, query: &Query, bytes: Option<Vec<u8>>) -> (r: FileOutcome)
    ensures
        r@ == after_read_spec(
            file@,
            query@,
            match bytes {
                Some(b) => Some(b@),
                None => None,
            },
        ),
        r@.class is Some <==> query@.content is Some,
{
    match &query.content {
        None => name_only(file, query, None),
        Some(pattern) => match bytes {
            None => name_only(file, query, Some(HandlingClass::SkippedUnreadableText)),
            Some(b) => match string_from_utf8(within_cap(b, query.max_bytes)) {
                Some(text) => search_text(
                    file,
                    query,
                    pattern,
                    HandlingClass::ScannedText,
                    text.as_str(),
                ),
                None => name_only(file, query, Some(HandlingClass::SkippedNonUtf8)),
            },
        },
    }
}

/// Ends the analysis of a PDF with the text extracted from it; `text` is
/// `None` where the extraction failed, in whatever way.
pub fn after_extract(file: &CandidateFile, query: &Query, text: Option<String>) -> (r: FileOutcome)
    ensures
        r@ == after_extract_spec(file@, query@, text.deep_view()),
        r@.class is Some <==> query@.content is Some,
{
    match &query.content {
        None => name_only(file, query, None),
        Some(pattern) => match text {
            None => name_only(file, query, Some(HandlingClass::SkippedUnreadablePdf)),
            Some(t) => search_text(file, query, pattern, HandlingClass::ScannedPdf, t.as_str()),
        },
    }
}

/// Ends the analysis of a file during which the caller's work crashed: the
/// file counts as unreadable, in the class of its kind, and gives no match.
pub fn after_crash(file: &CandidateFile) -> (r: FileOutcome)
    ensures
        r@ == after_crash_spec(file@),
        r@.class is Some,
{
    let class = if file.is_pdf() {
        HandlingClass::SkippedUnreadablePdf
    } else {
        HandlingClass::SkippedUnreadableText
    };
    FileOutcome { class: Some(class), result: None }
}

} // verus!
