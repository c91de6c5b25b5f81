use vstd::prelude::*;

verus! {

#[verifier::external_type_specification]
#[verifier::external_body]
pub struct ExRegex(regex::Regex);

#[verifier::external_type_specification]
#[verifier::external_body]
pub struct ExRegexError(regex::Error);

/// Whether `regex::Regex::new` accepts a pattern (with its default limits).
pub uninterp spec fn regex_compiles(pattern: Seq<char>) -> bool;

/// Whether the regex compiled from `pattern` matches somewhere in `text`.
pub uninterp spec fn regex_finds(pattern: Seq<char>, text: Seq<char>) -> bool;

/// Relies on `regex::Regex::new`: whether a pattern compiles depends on the
/// pattern alone.
#[verifier::external_body]
fn compile_regex(pattern: &str) -> (r: Result<regex::Regex, regex::Error>)
    ensures
        r is Ok <==> regex_compiles(pattern@),
{
    regex::Regex::new(pattern)
}

/// Relies on `regex::Regex::is_match`: whether the regex matches anywhere in
/// `text`. A filter's regex is always the one compiled from its source, which
/// `PathFilter::new` alone sets.
#[verifier::external_body]
fn regex_is_match(filter: &PathFilter, text: &str) -> (r: bool)
    ensures
        r == regex_finds(filter@, text@),
{
    filter.re.is_match(text)
}

/// Why a filter could not be built.
pub enum FilterError {
    /// The pattern is not a regular expression that `regex` accepts.
    InvalidPattern(regex::Error),
}

/// A regular expression that the relative path of a file must match for the
/// file to be collected.
pub struct PathFilter {
    source: String,
    re: regex::Regex,
}

impl View for PathFilter {
    type V = Seq<char>;

    /// The pattern the filter was compiled from.
    closed spec fn view(&self) -> Seq<char> {
        self.source@
    }
}

impl PathFilter {
    /// Compiles `pattern`.
    pub fn new(pattern: &str) -> (r: Result<PathFilter, FilterError>)
        ensures
            r is Ok <==> regex_compiles(pattern@),
            r matches Ok(f) ==> f@ == pattern@,
    {
        match compile_regex(pattern) {
            Ok(re) => Ok(PathFilter { source: String::from_str(pattern), re }),
            Err(e) => Err(FilterError::InvalidPattern(e)),
        }
    }

    /// Whether the filter's regex matches somewhere in `path`.
    pub fn is_match(&self, path: &str) -> (r: bool)
        ensures
            r == regex_finds(self@, path@),
    {
        regex_is_match(self, path)
    }
}

} // verus!
