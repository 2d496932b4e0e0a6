//! Regular expressions. Compiling and matching is the work of the `regex`
//! crate; what this module states of it is believed, not proved.

use crate::error::{Error, ErrorView};
use vstd::prelude::*;
use vstd::string::*;

verus! {

/// Trusted: `regex::Regex`, a compiled regular expression. Nothing inside it
/// is seen here.
#[verifier::external_type_specification]
#[verifier::external_body]
pub struct ExRegex(regex::Regex);

/// The text that a compiled expression was built from (`Regex::as_str`).
pub uninterp spec fn regex_source(re: regex::Regex) -> Seq<char>;

/// Whether `Regex::new` accepts a text.
pub uninterp spec fn pattern_compiles(source: Seq<char>) -> bool;

/// The successive non-overlapping matches of an expression in a text, as
/// `Regex::find_iter` yields them, from left to right: for each its start and
/// its end. `regex` gives the two as byte offsets, which always fall between
/// characters; here they are counted in characters from the start of the
/// text, as the positions of a `Seq<char>` are.
pub uninterp spec fn match_spans(source: Seq<char>, hay: Seq<char>) -> Seq<(int, int)>;

/// What `Regex::replacen` returns for a replacement text, in which `$` refers
/// to capture groups. A `limit` of 0 stands for no limit.
pub uninterp spec fn expanded(
    source: Seq<char>,
    hay: Seq<char>,
    limit: nat,
    payload: Seq<char>,
) -> Seq<char>;

/// Whether the expression matches anywhere in the text.
pub open spec fn is_match(source: Seq<char>, hay: Seq<char>) -> bool {
    match_spans(source, hay).len() > 0
}

/// The first `limit` of the spans, or all of them where `limit` is 0.
pub open spec fn leading(spans: Seq<(int, int)>, limit: nat) -> Seq<(int, int)> {
    if limit == 0 || limit >= spans.len() {
        spans
    } else {
        spans.take(limit as int)
    }
}

/// `hay` with `payload` put in at position `at`.
pub open spec fn inserted(hay: Seq<char>, at: int, payload: Seq<char>) -> Seq<char> {
    hay.subrange(0, at) + payload + hay.subrange(at, hay.len() as int)
}

/// `hay` with `payload` put in next to each of the spans: directly before its
/// start, or directly after its end. The spans are taken from the last to the
/// first, so that the positions of those still to come stay as they are.
pub open spec fn adjoined(
    hay: Seq<char>,
    spans: Seq<(int, int)>,
    payload: Seq<char>,
    before: bool,
) -> Seq<char>
    decreases spans.len(),
{
    if spans.len() == 0 {
        hay
    } else {
        let at = if before {
            spans.last().0
        } else {
            spans.last().1
        };
        adjoined(inserted(hay, at, payload), spans.drop_last(), payload, before)
    }
}

/// `hay` with each of the spans replaced by `payload`, taken from the last to
/// the first.
pub open spec fn substituted(hay: Seq<char>, spans: Seq<(int, int)>, payload: Seq<char>) -> Seq<
    char,
>
    decreases spans.len(),
{
    if spans.len() == 0 {
        hay
    } else {
        let (start, end) = spans.last();
        substituted(
            hay.subrange(0, start) + payload + hay.subrange(end, hay.len() as int),
            spans.drop_last(),
            payload,
        )
    }
}

/// A compiled regular expression. Its view is the text it was compiled from.
#[derive(Debug)]
pub struct Pattern {
    regex: regex::Regex,
}

impl View for Pattern {
    type V = Seq<char>;

    closed spec fn view(&self) -> Seq<char> {
        regex_source(self.regex)
    }
}

/// Trusted: `Regex::new` fails or succeeds by the text alone, and the
/// expression it returns reports that text as its source.
#[verifier::external_body]
fn compile(source: &str) -> (r: Option<regex::Regex>)
    ensures
        r is Some <==> pattern_compiles(source@),
        r matches Some(re) ==> regex_source(re) == source@,
{
    match regex::Regex::new(source) {
        Ok(re) => Some(re),
        Err(_) => None,
    }
}

/// Trusted: `Regex::as_str` returns the text that the expression was compiled
/// from.
#[verifier::external_body]
fn source_text(re: &regex::Regex) -> (s: String)
    ensures
        s@ == regex_source(*re),
{
    re.as_str().to_string()
}

/// Trusted: `Regex::is_match` is true exactly where the expression has at
/// least one match in the text.
#[verifier::external_body]
fn has_match(re: &regex::Regex, hay: &str) -> (b: bool)
    ensures
        b == is_match(regex_source(*re), hay@),
{
    re.is_match(hay)
}

/// Trusted: `Regex::find_iter` yields the successive non-overlapping matches;
/// this is their number.
#[verifier::external_body]
fn span_count(re: &regex::Regex, hay: &str) -> (n: usize)
    ensures
        n == match_spans(regex_source(*re), hay@).len(),
{
    re.find_iter(hay).count()
}

/// Trusted: `Regex::replacen` with a function as replacement copies the text,
/// and in place of each of the first `limit` matches (of all, where `limit`
/// is 0) puts what the function returns for it. The function given here
/// returns the match with the payload before or after it, so the result is
/// the text with the payload put in next to each of those matches.
#[verifier::external_body]
fn replacen_adjoining(re: &regex::Regex, hay: &str, limit: usize, payload: &str, before: bool) -> (r:
    String)
    ensures
        r@ == adjoined(
            hay@,
            leading(match_spans(regex_source(*re), hay@), limit as nat),
            payload@,
            before,
        ),
{
    re.replacen(hay, limit, |caps: &regex::Captures| adjoin(payload, &caps[0], before)).into_owned()
}

/// Trusted: `Regex::replacen` with a text as replacement. Its result is a
/// function of the expression, the text, the limit and the replacement.
/// Where the replacement holds no `$`, nothing is expanded, and each of the
/// first `limit` matches (each one, where `limit` is 0) is replaced by the
/// replacement as it stands.
#[verifier::external_body]
fn replacen_expanding(re: &regex::Regex, hay: &str, limit: usize, payload: &str) -> (r: String)
    ensures
        r@ == expanded(regex_source(*re), hay@, limit as nat, payload@),
        !payload@.contains('$') ==> r@ == substituted(
            hay@,
            leading(match_spans(regex_source(*re), hay@), limit as nat),
            payload@,
        ),
{
    re.replacen(hay, limit, payload).into_owned()
}

/// The matched text with the payload directly before or directly after it.
pub fn adjoin(payload: &str, matched: &str, before: bool) -> (r: String)
    ensures
        r@ == if before {
            payload@ + matched@
        } else {
            matched@ + payload@
        },
{
    if before {
        let mut out = String::from_str(payload);
        out.append(matched);
        out
    } else {
        let mut out = String::from_str(matched);
        out.append(payload);
        out
    }
}

impl Pattern {
    /// Compiles a regular expression. Fails exactly on a text that does not
    /// compile, and then hands the text back in the error.
    pub fn new(source: &str) -> (r: Result<Pattern, Error>)
        ensures
            r is Ok <==> pattern_compiles(source@),
            r matches Ok(p) ==> p@ == source@,
            r matches Err(e) ==> e@ == ErrorView::InvalidPattern(source@),
    {
        match compile(source) {
            Some(regex) => Ok(Pattern { regex }),
            None => Err(Error::InvalidPattern(String::from_str(source))),
        }
    }

    /// The text that the expression was compiled from.
    pub fn source(&self) -> (s: String)
        ensures
            s@ == self@,
    {
        source_text(&self.regex)
    }

    /// Whether the expression matches anywhere in `hay`.
    pub fn is_match(&self, hay: &str) -> (b: bool)
        ensures
            b == is_match(self@, hay@),
    {
        has_match(&self.regex, hay)
    }

    /// The number of successive non-overlapping matches in `hay`.
    pub fn count_matches(&self, hay: &str) -> (n: usize)
        ensures
            n == match_spans(self@, hay@).len(),
    {
        span_count(&self.regex, hay)
    }

    /// `hay` with `payload` put in directly before (or after) each of the
    /// first `limit` matches, or each match where `limit` is 0.
    pub fn adjoin_matches(&self, hay: &str, limit: usize, payload: &str, before: bool) -> (r:
        String)
        ensures
            r@ == adjoined(hay@, leading(match_spans(self@, hay@), limit as nat), payload@, before),
    {
        replacen_adjoining(&self.regex, hay, limit, payload, before)
    }

    /// `hay` with the first `limit` matches (each match, where `limit` is 0)
    /// replaced by `payload`, in which `$` refers to capture groups.
    pub fn replace_matches(&self, hay: &str, limit: usize, payload: &str) -> (r: String)
        ensures
            r@ == expanded(self@, hay@, limit as nat, payload@),
            !payload@.contains('$') ==> r@ == substituted(
                hay@,
                leading(match_spans(self@, hay@), limit as nat),
                payload@,
            ),
    {
        replacen_expanding(&self.regex, hay, limit, payload)
    }
}

} // verus!
