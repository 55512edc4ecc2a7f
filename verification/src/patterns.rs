//! The pattern registry and regex-backed extraction: pre-compiled matchers
//! for email addresses and URLs, and per-call compilation of caller-supplied
//! patterns for generic find/replace.

use vstd::prelude::*;

verus! {

use crate::chars::is_upper_char;
use crate::chars::lemma_lower_char_not_upper;
use crate::chars::lower_seq;
use crate::chars::lower_string;
use crate::error::MailError;

#[verifier::external_type_specification]
#[verifier::external_body]
pub struct ExRegex(regex::Regex);

/// Whether `regex::Regex::new` accepts the pattern: compilation succeeds or
/// fails on the pattern text alone.
pub uninterp spec fn regex_ok(pat: Seq<char>) -> bool;

/// The pattern a compiled `regex::Regex` was built from (what its `as_str`
/// reports); the behaviour of a compiled regex is a function of this text.
pub uninterp spec fn regex_source_of(re: regex::Regex) -> Seq<char>;

/// What `regex::Regex::find_iter` yields on a haystack: the successive
/// non-overlapping matches, in order of occurrence in the text.
pub uninterp spec fn regex_matches_of(pat: Seq<char>, text: Seq<char>) -> Seq<Seq<char>>;

/// What `regex::Regex::replace_all` yields: the haystack with every
/// non-overlapping match replaced by the replacement text.
pub uninterp spec fn regex_replace_of(pat: Seq<char>, rep: Seq<char>, text: Seq<char>) -> Seq<
    char,
>;

/// Relies on `regex::Regex::new`: it compiles the pattern or reports a
/// diagnostic, deciding on the pattern text alone, and the compiled regex
/// keeps that text as its source.
#[verifier::external_body]
fn compile(pat: &str) -> (r: Result<regex::Regex, String>)
    ensures
        r is Ok <==> regex_ok(pat@),
        r matches Ok(re) ==> regex_source_of(re) == pat@,
{
    match regex::Regex::new(pat) {
        Ok(re) => Ok(re),
        Err(e) => Err(format!("{}", e)),
    }
}

/// Relies on `regex::Regex::find_iter`: the successive non-overlapping
/// matches of the compiled pattern, in textual order, each handed out as its
/// matched text.
#[verifier::external_body]
fn find_matches(re: &regex::Regex, text: &str) -> (r: Vec<String>)
    ensures
        r.deep_view() == regex_matches_of(regex_source_of(*re), text@),
{
    re.find_iter(text).map(|m| m.as_str().to_string()).collect()
}

/// Relies on `regex::Regex::replace_all`: every non-overlapping match of the
/// compiled pattern replaced by the replacement text.
#[verifier::external_body]
fn replace_matches(re: &regex::Regex, text: &str, rep: &str) -> (r: String)
    ensures
        r@ == regex_replace_of(regex_source_of(*re), rep@, text@),
{
    re.replace_all(text, rep).into_owned()
}

/// The built-in email-address pattern.
pub open spec fn email_pattern() -> Seq<char> {
    "[a-zA-Z0-9._%+-]+@[a-zA-Z0-9.-]+\\.[a-zA-Z]{2,}"@
}

/// The built-in URL pattern.
pub open spec fn url_pattern() -> Seq<char> {
    "https?://[^\\s<>\"{}|\\\\^`\\[\\]]+"@
}

/// The emails extracted from a text: every match of the email pattern, in
/// order of occurrence, folded to lowercase.
pub open spec fn spec_extract_emails(t: Seq<char>) -> Seq<Seq<char>> {
    regex_matches_of(email_pattern(), t).map_values(|m: Seq<char>| lower_seq(m))
}

/// The URLs extracted from a text: every match of the URL pattern, in order
/// of occurrence, case preserved.
pub open spec fn spec_extract_urls(t: Seq<char>) -> Seq<Seq<char>> {
    regex_matches_of(url_pattern(), t)
}

/// The process-lifetime registry of pre-compiled matchers, built once and
/// shared read-only by every component that matches text.
pub struct PatternRegistry {
    email_re: regex::Regex,
    url_re: regex::Regex,
}

impl PatternRegistry {
    /// The registry's matchers were compiled from the built-in patterns.
    pub closed spec fn wf(self) -> bool {
        &&& regex_source_of(self.email_re) == email_pattern()
        &&& regex_source_of(self.url_re) == url_pattern()
    }

    /// Compiles the built-in matchers. A failure here indicates a defect in a
    /// built-in pattern, not bad input, so the caller is expected to abort
    /// startup on `None`.
    pub fn new() -> (r: Option<PatternRegistry>)
        ensures
            r is Some <==> regex_ok(email_pattern()) && regex_ok(url_pattern()),
            r matches Some(reg) ==> reg.wf(),
    {
        let email = compile("[a-zA-Z0-9._%+-]+@[a-zA-Z0-9.-]+\\.[a-zA-Z]{2,}");
        let url = compile("https?://[^\\s<>\"{}|\\\\^`\\[\\]]+");
        match (email, url) {
            (Ok(email_re), Ok(url_re)) => Some(PatternRegistry { email_re, url_re }),
            _ => None,
        }
    }

    /// Every non-overlapping match of the email pattern, lowercased, in order
    /// of first occurrence; duplicates are kept, one entry per occurrence.
    pub fn extract_emails(&self, text: &str) -> (r: Vec<String>)
        requires
            self.wf(),
        ensures
            r.deep_view() == spec_extract_emails(text@),
    {
        let ms = find_matches(&self.email_re, text);
        let ghost mv = regex_matches_of(email_pattern(), text@);
        let mut out: Vec<String> = Vec::new();
        let mut i: usize = 0;
        proof {
            assert(out.deep_view() =~= spec_extract_emails(text@).take(0));
        }
        while i < ms.len()
            invariant
                ms.deep_view() == mv,
                mv == regex_matches_of(email_pattern(), text@),
                i <= mv.len(),
                out.deep_view() == spec_extract_emails(text@).take(i as int),
            decreases mv.len() - i,
        {
            let m = lower_string(ms[i].as_str());
            proof {
                assert(ms.deep_view()[i as int] == ms@[i as int]@);
                assert(m@ == spec_extract_emails(text@)[i as int]);
            }
            let ghost prev = out.deep_view();
            let ghost mval = m@;
            out.push(m);
            i = i + 1;
            proof {
                assert(out.deep_view() =~= prev.push(mval));
                assert(spec_extract_emails(text@).take(i as int) =~= prev.push(mval));
            }
        }
        proof {
            assert(spec_extract_emails(text@).take(mv.len() as int) =~= spec_extract_emails(
                text@,
            ));
        }
        out
    }

    /// Every non-overlapping match of the URL pattern, case preserved, in
    /// order of occurrence.
    pub fn extract_urls(&self, text: &str) -> (r: Vec<String>)
        requires
            self.wf(),
        ensures
            r.deep_view() == spec_extract_urls(text@),
    {
        find_matches(&self.url_re, text)
    }
}

/// Law: every character of every extracted email address is lowercase — no
/// ASCII uppercase letter remains after folding.
pub proof fn lemma_extract_emails_lowercase(t: Seq<char>, i: int, j: int)
    requires
        0 <= i < spec_extract_emails(t).len(),
        0 <= j < spec_extract_emails(t)[i].len(),
    ensures
        !is_upper_char(spec_extract_emails(t)[i][j]),
{
    let ms = regex_matches_of(email_pattern(), t);
    assert(spec_extract_emails(t)[i] == lower_seq(ms[i]));
    lemma_lower_char_not_upper(ms[i][j]);
}

/// Law: extraction keeps first-occurrence order: the email list has one
/// entry per match of the email pattern, and the entry at each position is
/// the lowercase folding of the match at that position.
pub proof fn lemma_extract_emails_positional(t: Seq<char>, i: int)
    requires
        0 <= i < regex_matches_of(email_pattern(), t).len(),
    ensures
        spec_extract_emails(t).len() == regex_matches_of(email_pattern(), t).len(),
        spec_extract_emails(t)[i] == lower_seq(regex_matches_of(email_pattern(), t)[i]),
{
}

/// Every non-overlapping match of a caller-supplied pattern, in order of
/// occurrence. An uncompilable pattern is reported, with the compiler's
/// diagnostic, exactly when the pattern is rejected.
pub fn find_all(pattern: &str, text: &str) -> (r: Result<Vec<String>, MailError>)
    ensures
        r is Ok <==> regex_ok(pattern@),
        r matches Ok(v) ==> v.deep_view() == regex_matches_of(pattern@, text@),
        r matches Err(e) ==> e is InvalidPattern,
{
    match compile(pattern) {
        Ok(re) => Ok(find_matches(&re, text)),
        Err(msg) => Err(MailError::InvalidPattern(msg)),
    }
}

/// The text with every non-overlapping match of a caller-supplied pattern
/// replaced. An uncompilable pattern is reported, with the compiler's
/// diagnostic, exactly when the pattern is rejected.
pub fn replace_all(pattern: &str, replacement: &str, text: &str) -> (r: Result<String, MailError>)
    ensures
        r is Ok <==> regex_ok(pattern@),
        r matches Ok(s) ==> s@ == regex_replace_of(pattern@, replacement@, text@),
        r matches Err(e) ==> e is InvalidPattern,
{
    match compile(pattern) {
        Ok(re) => Ok(replace_matches(&re, text, replacement)),
        Err(msg) => Err(MailError::InvalidPattern(msg)),
    }
}

} // verus!
