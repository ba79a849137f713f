//! Recognising the lines that start and end a document.
use regex::Regex;
use vstd::prelude::*;

verus! {

/// `regex::Regex`: the compiled form of a pattern. Nothing inside it is
/// visible to the proofs; the two spec functions below stand for what it
/// holds.
#[verifier::external_type_specification]
#[verifier::external_body]
pub struct ExRegex(regex::Regex);

/// `regex::Error`: what the crate hands back for a pattern that it does not
/// compile. It is carried through, never looked into.
#[verifier::external_type_specification]
#[verifier::external_body]
pub struct ExRegexError(regex::Error);

/// The pattern text that a compiled regex was built from: what
/// `Regex::as_str` returns for it. It has no body: the text is the crate's
/// to keep.
pub uninterp spec fn regex_source(re: Regex) -> Seq<char>;

/// Whether `Regex::new` accepts `pattern`: whether it returns a regex for it
/// and not an error. It has no body: which patterns compile is the crate's
/// to decide. The answer is that of the crate as it is built with this
/// library; the call reads nothing but the pattern.
pub uninterp spec fn regex_compiles(pattern: Seq<char>) -> bool;

/// Whether a compiled regex finds a match anywhere in `haystack`: what
/// `Regex::is_match` returns for the two. It has no body: which haystacks a
/// pattern matches is the crate's to decide, and nothing here says it.
pub uninterp spec fn regex_is_match(re: Regex, haystack: Seq<char>) -> bool;

/// Calls `Regex::new`. Taken on trust, not proved: whether a regex comes
/// back depends on the pattern alone, so it can be named; and a regex that
/// comes back was built from `pattern`, so its source is the pattern's text.
/// The crate builds from fixed settings, stores the text it was given beside
/// the compiled program and hands it out as `Regex::as_str`. Which patterns
/// compile is not said.
#[verifier::external_body]
fn compile(pattern: &str) -> (r: Result<Regex, regex::Error>)
    ensures
        r is Ok <==> regex_compiles(pattern@),
        r matches Ok(re) ==> regex_source(re) == pattern@,
{
    Regex::new(pattern)
}

/// Calls `Regex::is_match`. Taken on trust, not proved: the answer depends
/// on the regex and the haystack alone, so it can be named. The call searches
/// from the start of the haystack and does not panic.
#[verifier::external_body]
fn is_match(re: &Regex, haystack: &str) -> (r: bool)
    ensures
        r == regex_is_match(*re, haystack@),
{
    re.is_match(haystack)
}

/// The pattern of a line that starts a document: three dashes, then spaces
/// only.
pub const DOC_START_PATTERN: &'static str = "^--- *$";

/// The pattern of a line that ends a document: three dots, then spaces only.
pub const DOC_END_PATTERN: &'static str = "^\\.\\.\\. *$";

/// Why the markers could not be built.
#[derive(Debug)]
pub enum MarkerError {
    /// The start pattern was refused.
    DocStart(regex::Error),
    /// The end pattern was refused.
    DocEnd(regex::Error),
}

/// What a line is to the splitter.
#[derive(Clone, Copy, Debug, PartialEq, Eq, Structural)]
pub enum LineKind {
    /// The line starts a new document.
    DocStart,
    /// The line ends the document that is open.
    DocEnd,
    /// The line belongs to a document.
    Content,
}

/// The kind of a line, given whether the start pattern and the end pattern
/// match it. The start pattern is asked first.
pub open spec fn line_kind(is_start: bool, is_end: bool) -> LineKind {
    if is_start {
        LineKind::DocStart
    } else if is_end {
        LineKind::DocEnd
    } else {
        LineKind::Content
    }
}

/// Decides the kind of a line from the two match results.
pub fn classify(is_start: bool, is_end: bool) -> (kind: LineKind)
    ensures
        kind == line_kind(is_start, is_end),
{
    if is_start {
        LineKind::DocStart
    } else if is_end {
        LineKind::DocEnd
    } else {
        LineKind::Content
    }
}

/// Compiles the pattern of a document's first line. A regex comes back
/// exactly where the `regex` crate accepts the pattern, and it is the one of
/// that pattern.
pub fn regex_doc_start() -> (r: Result<Regex, regex::Error>)
    ensures
        r is Ok <==> regex_compiles(DOC_START_PATTERN@),
        r matches Ok(re) ==> regex_source(re) == DOC_START_PATTERN@,
{
    compile(DOC_START_PATTERN)
}

/// Compiles the pattern of a document's last line. A regex comes back
/// exactly where the `regex` crate accepts the pattern, and it is the one of
/// that pattern.
pub fn regex_doc_end() -> (r: Result<Regex, regex::Error>)
    ensures
        r is Ok <==> regex_compiles(DOC_END_PATTERN@),
        r matches Ok(re) ==> regex_source(re) == DOC_END_PATTERN@,
{
    compile(DOC_END_PATTERN)
}

/// The two compiled patterns that tell the lines of a stream apart. They are
/// compiled once and then asked about every line.
#[derive(Debug)]
pub struct Markers {
    /// Matches the lines that start a document.
    pub start: Regex,
    /// Matches the lines that end a document.
    pub end: Regex,
}

impl Markers {
    /// The markers are the ones of the document convention: built from
    /// `DOC_START_PATTERN` and `DOC_END_PATTERN`.
    pub open spec fn is_standard(self) -> bool {
        &&& regex_source(self.start) == DOC_START_PATTERN@
        &&& regex_source(self.end) == DOC_END_PATTERN@
    }

    /// The kind of `line` under these markers.
    pub open spec fn kind_of(self, line: Seq<char>) -> LineKind {
        line_kind(regex_is_match(self.start, line), regex_is_match(self.end, line))
    }

    /// Puts two compilation results together. Both patterns must have
    /// compiled; where both were refused, the error is that of the start
    /// pattern.
    pub fn from_compiled(
        start: Result<Regex, regex::Error>,
        end: Result<Regex, regex::Error>,
    ) -> (r: Result<Markers, MarkerError>)
        ensures
            match (start, end) {
                (Ok(s), Ok(e)) => r == Ok::<Markers, MarkerError>((Markers { start: s, end: e })),
                (Err(cause), _) => r == Err::<Markers, MarkerError>(MarkerError::DocStart(cause)),
                (Ok(_), Err(cause)) => r == Err::<Markers, MarkerError>(
                    MarkerError::DocEnd(cause),
                ),
            },
    {
        match start {
            Err(cause) => Err(MarkerError::DocStart(cause)),
            Ok(s) => match end {
                Err(cause) => Err(MarkerError::DocEnd(cause)),
                Ok(e) => Ok(Markers { start: s, end: e }),
            },
        }
    }

    /// Compiles the two patterns of the document convention.
    ///
    /// The markers come back exactly where the `regex` crate accepts both
    /// patterns, and they are the standard ones. Where it refuses the start
    /// pattern, the error is `DocStart`; where it refuses the end pattern
    /// only, the error is `DocEnd`.
    pub fn new() -> (r: Result<Markers, MarkerError>)
        ensures
            r is Ok <==> regex_compiles(DOC_START_PATTERN@) && regex_compiles(
                DOC_END_PATTERN@,
            ),
            r matches Ok(markers) ==> markers.is_standard(),
            r matches Err(MarkerError::DocStart(_)) <==> !regex_compiles(DOC_START_PATTERN@),
            r matches Err(MarkerError::DocEnd(_)) <==> regex_compiles(DOC_START_PATTERN@)
                && !regex_compiles(DOC_END_PATTERN@),
    {
        let start = regex_doc_start();
        let end = regex_doc_end();
        Markers::from_compiled(start, end)
    }

    /// Whether `line` starts a document.
    pub fn is_doc_start(&self, line: &str) -> (r: bool)
        ensures
            r == regex_is_match(self.start, line@),
    {
        is_match(&self.start, line)
    }

    /// Whether `line` ends a document.
    pub fn is_doc_end(&self, line: &str) -> (r: bool)
        ensures
            r == regex_is_match(self.end, line@),
    {
        is_match(&self.end, line)
    }

    /// Classifies a line. The end pattern is asked only where the start
    /// pattern does not match.
    pub fn classify_line(&self, line: &str) -> (kind: LineKind)
        ensures
            kind == self.kind_of(line@),
    {
        let is_start = self.is_doc_start(line);
        let is_end = if is_start {
            false
        } else {
            self.is_doc_end(line)
        };
        classify(is_start, is_end)
    }
}

} // verus!
