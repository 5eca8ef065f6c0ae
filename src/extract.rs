use vstd::prelude::*;
use crate::window::is_class_digit;

verus! {

#[verifier::external_type_specification]
#[verifier::external_body]
pub struct ExRegex(regex::Regex);

#[verifier::external_type_specification]
#[verifier::external_body]
pub struct ExRegexError(regex::Error);

/// Whether the regex crate accepts `pattern` as a regular expression.
pub uninterp spec fn pattern_accepted(pattern: Seq<char>) -> bool;

/// The text of capture group 1 of the first match of `pattern` in `payload`, read as
/// UTF-8 with invalid sequences replaced; `None` where nothing matches or the group
/// takes no part in the match.
pub uninterp spec fn first_group(pattern: Seq<char>, payload: Seq<u8>) -> Option<Seq<u8>>;

/// Relies on `regex::Regex::new`: it fails exactly on the patterns that it refuses.
#[verifier::external_body]
fn compile(pattern: &str) -> (r: Result<regex::Regex, regex::Error>)
    ensures
        r is Ok <==> pattern_accepted(pattern@),
{
    regex::Regex::new(pattern)
}

/// Why a configuration is refused.
#[derive(Clone, Copy, Debug, PartialEq, Eq, Structural)]
pub enum ConfigError {
    /// The status-code pattern is not a valid regular expression.
    InvalidPattern,
    /// The window would hold no bucket.
    EmptyWindow,
}

/// A compiled status-code pattern together with its source text.
pub struct StatusExtractor {
    pattern: String,
    regex: regex::Regex,
}

/// Relies on `String::from_utf8_lossy`, `regex::Regex::captures`, `Captures::get` and
/// `Match::as_str`: the bytes of group 1 of the first match, where `regex` was
/// compiled from `ex.pattern`.
#[verifier::external_body]
fn captured_group(ex: &StatusExtractor, payload: &[u8]) -> (r: Option<Vec<u8>>)
    ensures
        match r {
            Some(v) => first_group(ex.pattern_spec(), payload@) == Some(v@),
            None => first_group(ex.pattern_spec(), payload@) is None,
        },
{
    let text = String::from_utf8_lossy(payload);
    match ex.regex.captures(&text) {
        Some(caps) => match caps.get(1) {
            Some(m) => Some(m.as_str().as_bytes().to_vec()),
            None => None,
        },
        None => None,
    }
}

/// The view of an optional byte vector.
pub open spec fn opt_view(c: Option<Vec<u8>>) -> Option<Seq<u8>> {
    match c {
        Some(v) => Some(v@),
        None => None,
    }
}

/// The class digit that a captured status code selects: its first byte, where that
/// is `1` to `5`.
pub open spec fn class_of(capture: Option<Seq<u8>>) -> Option<u8> {
    match capture {
        Some(s) => if s.len() > 0 && is_class_digit(s[0]) {
            Some(s[0])
        } else {
            None
        },
        None => None,
    }
}

/// The class digit that `capture` selects, or `None` where the observation is to be
/// discarded (no capture, an empty one, or a first byte other than `1` to `5`).
pub fn class_digit(capture: &Option<Vec<u8>>) -> (r: Option<u8>)
    ensures
        r == class_of(opt_view(*capture)),
{
    match capture {
        Some(s) => {
            if s.len() > 0 && 0x31u8 <= s[0] && s[0] <= 0x35u8 {
                Some(s[0])
            } else {
                None
            }
        },
        None => None,
    }
}

impl StatusExtractor {
    /// The pattern that the extractor was compiled from.
    pub closed spec fn pattern_spec(&self) -> Seq<char> {
        self.pattern@
    }

    /// Compiles `pattern`, which should hold one capture group around the status code.
    pub fn new(pattern: &str) -> (r: Result<StatusExtractor, ConfigError>)
        ensures
            match r {
                Ok(ex) => pattern_accepted(pattern@) && ex.pattern_spec() == pattern@,
                Err(e) => !pattern_accepted(pattern@) && e == ConfigError::InvalidPattern,
            },
    {
        match compile(pattern) {
            Ok(regex) => Ok(StatusExtractor { pattern: pattern.to_owned(), regex }),
            Err(_) => Err(ConfigError::InvalidPattern),
        }
    }

    /// The captured status code of `payload`, if the pattern matches it with a capture.
    pub fn extract(&self, payload: &[u8]) -> (r: Option<Vec<u8>>)
        ensures
            opt_view(r) == first_group(self.pattern_spec(), payload@),
    {
        captured_group(self, payload)
    }
}

} // verus!
