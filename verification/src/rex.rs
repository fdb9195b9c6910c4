//! The crate's only view of the regex engine: compiling a pattern, its
//! group count, and the match and capture texts it yields on a line. Each
//! is trusted at this boundary; every decision taken on the values is
//! verified.

use vstd::prelude::*;

verus! {

#[verifier::external_type_specification]
#[verifier::external_body]
pub struct ExRegex(regex::Regex);

/// Whether the regex crate accepts `pattern`. Compilation is a function
/// of the pattern alone.
pub uninterp spec fn regex_valid(pattern: Seq<char>) -> bool;

/// How many capture groups `pattern` has, the implicit whole-match group
/// included. A function of the pattern alone.
pub uninterp spec fn regex_group_count(pattern: Seq<char>) -> nat;

/// The texts of the successive non-overlapping matches of `pattern` on
/// `line`, in match order. A function of pattern and line alone.
pub uninterp spec fn regex_match_texts(pattern: Seq<char>, line: Seq<char>) -> Seq<Seq<char>>;

/// The texts of the explicit capture groups that take part in the
/// successive non-overlapping matches of `pattern` on `line`, in match
/// order and group order within a match. A function of pattern and line
/// alone.
pub uninterp spec fn regex_group_values(pattern: Seq<char>, line: Seq<char>) -> Seq<Seq<char>>;

/// A compiled regex, remembering the pattern it was compiled from.
pub struct CompiledRegex {
    pattern: String,
    regex: regex::Regex,
}

impl CompiledRegex {
    /// The pattern this regex was compiled from.
    pub closed spec fn pattern(self) -> Seq<char> {
        self.pattern@
    }

    /// Relies on regex::Regex::new: it succeeds exactly on the patterns
    /// the crate accepts.
    #[verifier::external_body]
    pub fn compile(pattern: &str) -> (r: Option<CompiledRegex>)
        ensures
            r matches Some(c) ==> c.pattern() == pattern@ && regex_valid(pattern@),
            r is None ==> !regex_valid(pattern@),
    {
        match regex::Regex::new(pattern) {
            Ok(regex) => Some(CompiledRegex { pattern: pattern.to_string(), regex }),
            Err(_) => None,
        }
    }

    /// Relies on regex::Regex::captures_len: the number of capture
    /// groups, which always counts the implicit whole-match group.
    #[verifier::external_body]
    pub fn captures_len(&self) -> (n: usize)
        ensures
            n == regex_group_count(self.pattern()),
            n >= 1,
    {
        self.regex.captures_len()
    }

    /// Relies on regex::Regex::find_iter: the text of each successive
    /// non-overlapping match on the line.
    #[verifier::external_body]
    pub fn match_texts(&self, line: &str) -> (r: Vec<String>)
        ensures
            r.deep_view() == regex_match_texts(self.pattern(), line@),
    {
        let mut out: Vec<String> = Vec::new();
        for found in self.regex.find_iter(line) {
            out.push(found.as_str().to_string());
        }
        out
    }

    /// Relies on regex::Regex::captures_iter (and Captures::get): the
    /// text of each explicit capture group that took part in a match, for
    /// each successive non-overlapping match on the line.
    #[verifier::external_body]
    pub fn group_values(&self, line: &str) -> (r: Vec<String>)
        ensures
            r.deep_view() == regex_group_values(self.pattern(), line@),
    {
        let mut out: Vec<String> = Vec::new();
        for caps in self.regex.captures_iter(line) {
            for idx in 1..caps.len() {
                if let Some(group) = caps.get(idx) {
                    out.push(group.as_str().to_string());
                }
            }
        }
        out
    }
}

} // verus!
