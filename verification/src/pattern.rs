//! Regular-expression matching, done by the `regex` crate.
//!
//! A pattern is compiled once into a `CompiledPattern`, which keeps the
//! pattern's text beside the compiled `regex::Regex`; matching then asks the
//! compiled regex. Contracts speak of the pattern's text.
use vstd::prelude::*;
use vstd::string::StringSliceAdditionalSpecFns;

verus! {

/// The error message that `regex::Regex::new` reports for `pattern`, or `None`
/// when the pattern compiles.
pub uninterp spec fn regex_compile_error(pattern: Seq<char>) -> Option<Seq<char>>;

/// Whether the regex compiled from `pattern` matches somewhere in `text`.
pub uninterp spec fn regex_matches(pattern: Seq<char>, text: Seq<char>) -> bool;

/// The byte ranges `(start, end)` of the successive non-overlapping matches
/// of the regex compiled from `pattern` in `text`.
pub uninterp spec fn regex_match_spans(pattern: Seq<char>, text: Seq<char>) -> Seq<(usize, usize)>;

/// Whether `pattern` is accepted by `regex::Regex::new`.
pub open spec fn regex_compiles(pattern: Seq<char>) -> bool {
    regex_compile_error(pattern) is None
}

#[verifier::external_type_specification]
#[verifier::external_body]
pub struct ExRegex(regex::Regex);

/// A compiled pattern: its text, and the regex compiled from it. Only
/// `compile` makes one (the fields are private to this module), so the
/// regex is always the one `regex::Regex::new` gives for the text.
pub struct CompiledPattern {
    source: String,
    regex: regex::Regex,
}

impl View for CompiledPattern {
    type V = Seq<char>;

    /// The pattern's text.
    closed spec fn view(&self) -> Seq<char> {
        self.source@
    }
}

/// Calls `regex::Regex::new(pattern)`, keeping the pattern beside the
/// compiled regex; on failure, the error's `Display` text. Claimed: the
/// outcome is the named function `regex_compile_error` of the pattern, and a
/// compiled pattern's text is `pattern`.
#[verifier::external_body]
pub(crate) fn compile(pattern: &str) -> (r: Result<CompiledPattern, String>)
    ensures
        match r {
            Ok(cp) => regex_compile_error(pattern@) is None && cp@ == pattern@,
            Err(msg) => regex_compile_error(pattern@) == Some(msg@),
        },
{
    match regex::Regex::new(pattern) {
        Ok(regex) => Ok(CompiledPattern { source: pattern.to_string(), regex }),
        Err(e) => Err(e.to_string()),
    }
}

/// Calls `regex::Regex::is_match` on `text`. Claimed: the result is the
/// named result `regex_matches` of the pattern's text and `text` (the regex
/// held is the one compiled from that text, as only `compile` makes a
/// `CompiledPattern`).
#[verifier::external_body]
pub(crate) fn is_match(cp: &CompiledPattern, text: &str) -> (b: bool)
    ensures
        b == regex_matches(cp@, text@),
{
    cp.regex.is_match(text)
}

/// Calls `regex::Regex::find_iter` on `text` and keeps each match's byte
/// range. Claimed: the named result `regex_match_spans`; and, as the crate
/// documents for `Regex` and `Match`, every range has `start <= end <=
/// text.len()` (bytes), both ends fall on character boundaries of `text`, and
/// the matches are successive and do not overlap. The crate also documents
/// that an empty match can only occur when the regex can match the empty
/// string; the timestamp pattern cannot (each of its alternatives needs at
/// least one digit), so its matches are claimed non-empty. Whether a match of
/// another pattern can be empty is left unsaid.
#[verifier::external_body]
pub(crate) fn find_spans(cp: &CompiledPattern, text: &str) -> (v: Vec<(usize, usize)>)
    ensures
        v@ == regex_match_spans(cp@, text@),
        forall|k: int| 0 <= k < v@.len() ==> #[trigger] v@[k].0 <= v@[k].1 <= text.len(),
        forall|k: int|
            0 <= k < v@.len() ==> vstd::utf8::is_char_boundary(text.spec_bytes(), #[trigger] v@[k].0 as int)
                && vstd::utf8::is_char_boundary(text.spec_bytes(), v@[k].1 as int),
        forall|k: int| 0 <= k < v@.len() - 1 ==> #[trigger] v@[k].1 <= v@[k + 1].0,
        cp@ == crate::highlight::TIMESTAMP_PATTERN@ ==> forall|k: int| 0 <= k < v@.len() ==> #[trigger] v@[k].0 < v@[k].1,
{
    cp.regex.find_iter(text).map(|m| (m.start(), m.end())).collect()
}

} // verus!
