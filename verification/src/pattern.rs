//! Regular expressions (the `regex` crate) and shell-style wildcards (the
//! `glob` crate), with the results of their matching named.
//!
//! A compiled pattern carries the text it was compiled from; only the
//! constructors below build one, so the text always names the pattern the
//! compiled value holds.

use vstd::prelude::*;

verus! {

#[verifier::external_type_specification]
#[verifier::external_body]
pub struct ExRegex(regex::Regex);

#[verifier::external_type_specification]
#[verifier::external_body]
pub struct ExGlobPattern(glob::Pattern);

/// Whether `regex::Regex::new` accepts the pattern.
pub uninterp spec fn regex_valid(pattern: Seq<char>) -> bool;

/// What `Regex::is_match` answers for a valid pattern and a text.
pub uninterp spec fn regex_is_match(pattern: Seq<char>, text: Seq<char>) -> bool;

/// Capture group 1 of each successive match of a valid pattern in a text,
/// as `Regex::captures_iter` finds the matches: its text, or `None` when
/// the group did not take part in the match.
pub uninterp spec fn regex_group1(pattern: Seq<char>, text: Seq<char>) -> Seq<Option<Seq<char>>>;

/// A compiled regular expression and the text it was compiled from.
pub struct CompiledRegex {
    source: String,
    re: regex::Regex,
}

impl CompiledRegex {
    /// The text this expression was compiled from.
    pub closed spec fn pattern(&self) -> Seq<char> {
        self.source@
    }
}

/// `regex::Regex::new`: compiles `pattern`, or `None` when the crate
/// rejects it.
#[verifier::external_body]
pub(crate) fn compile_regex(pattern: &str) -> (r: Option<CompiledRegex>)
    ensures
        r.is_some() == regex_valid(pattern@),
        r matches Some(c) ==> c.pattern() == pattern@,
{
    match regex::Regex::new(pattern) {
        Ok(re) => Some(CompiledRegex { source: pattern.to_string(), re }),
        Err(_) => None,
    }
}

/// `Regex::is_match`.
#[verifier::external_body]
pub(crate) fn regex_matches(re: &CompiledRegex, text: &str) -> (r: bool)
    ensures
        r == regex_is_match(re.pattern(), text@),
{
    re.re.is_match(text)
}

/// `Regex::captures_iter`: capture group 1 of each match, if it took part.
#[verifier::external_body]
pub(crate) fn regex_captures_group1(re: &CompiledRegex, text: &str) -> (r: Vec<Option<String>>)
    ensures
        r@.len() == regex_group1(re.pattern(), text@).len(),
        forall|i: int| 0 <= i < r@.len() ==> #[trigger] opt_str_view(r@[i]) == regex_group1(re.pattern(), text@)[i],
{
    re.re.captures_iter(text).map(|c| c.get(1).map(|m| m.as_str().to_string())).collect()
}

/// The view of an optional string.
pub open spec fn opt_str_view(o: Option<String>) -> Option<Seq<char>> {
    match o {
        Some(s) => Some(s@),
        None => None,
    }
}

/// Whether `glob::Pattern::new` accepts the pattern.
pub uninterp spec fn glob_valid(pattern: Seq<char>) -> bool;

/// What `Pattern::matches` answers for a valid pattern and a text.
pub uninterp spec fn glob_is_match(pattern: Seq<char>, text: Seq<char>) -> bool;

/// A compiled wildcard pattern and the text it was compiled from.
pub struct CompiledGlob {
    source: String,
    pat: glob::Pattern,
}

impl CompiledGlob {
    /// The text this pattern was compiled from.
    pub closed spec fn pattern(&self) -> Seq<char> {
        self.source@
    }
}

/// `glob::Pattern::new`: compiles `pattern`, or `None` when the crate
/// rejects it.
#[verifier::external_body]
pub(crate) fn compile_glob(pattern: &str) -> (r: Option<CompiledGlob>)
    ensures
        r.is_some() == glob_valid(pattern@),
        r matches Some(c) ==> c.pattern() == pattern@,
{
    match glob::Pattern::new(pattern) {
        Ok(pat) => Some(CompiledGlob { source: pattern.to_string(), pat }),
        Err(_) => None,
    }
}

/// `Pattern::matches`.
#[verifier::external_body]
pub(crate) fn glob_matches(g: &CompiledGlob, text: &str) -> (r: bool)
    ensures
        r == glob_is_match(g.pattern(), text@),
{
    g.pat.matches(text)
}

} // verus!
