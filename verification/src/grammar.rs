//! The pattern engine and the timestamp parser behind the line grammars.
//!
//! A source's grammar is a regular expression, and its timestamp format is a
//! `strftime` string. Compiling, matching and parsing are done by the `regex`
//! and `chrono` crates. Nothing of what these do is proved here: each private
//! function below states what the crate it calls returns, under a name that
//! the rest of the library reasons with.

use chrono::NaiveDateTime;
use regex::Regex;
use vstd::prelude::*;

verus! {

/// `regex::Regex`, a compiled regular expression.
#[verifier::external_type_specification]
#[verifier::external_body]
pub struct ExRegex(regex::Regex);

/// Whether `regex::Regex::new` accepts `pattern`.
pub uninterp spec fn pattern_compiles(pattern: Seq<char>) -> bool;

/// Whether `regex::Regex::is_match` finds `pattern`, once compiled, somewhere
/// in `line`.
pub uninterp spec fn pattern_matches(pattern: Seq<char>, line: Seq<char>) -> bool;

/// What `regex::Regex::captures` finds for `pattern`, once compiled, in
/// `line`: `None` where the pattern matches nowhere in the line, else the text
/// of the capture groups named `first` and `second` in the leftmost match,
/// each `None` where the pattern has no group of that name or the group took
/// no part in the match.
pub uninterp spec fn pattern_captures(
    pattern: Seq<char>,
    line: Seq<char>,
    first: Seq<char>,
    second: Seq<char>,
) -> Option<(Option<Seq<char>>, Option<Seq<char>>)>;

/// Whether `chrono::NaiveDateTime::parse_from_str` reads `text` as a date and
/// time under `format`.
pub uninterp spec fn timestamp_parses(text: Seq<char>, format: Seq<char>) -> bool;

/// A grammar that compiled: the text of a regular expression together with
/// what `regex::Regex::new` made of it. Only [`Grammar::new`] makes one, so
/// the two always belong together.
#[derive(Debug)]
pub struct Grammar {
    source: String,
    compiled: Regex,
}

impl View for Grammar {
    type V = Seq<char>;

    closed spec fn view(&self) -> Seq<char> {
        self.source@
    }
}

/// Compiles `pattern` with `regex::Regex::new` and keeps the result beside
/// the pattern's text. Claimed, not proved: whether a pattern compiles depends
/// on its text alone.
#[verifier::external_body]
fn compile(pattern: &str) -> (grammar: Option<Grammar>)
    ensures
        grammar is Some <==> pattern_compiles(pattern@),
        grammar matches Some(made) ==> made@ == pattern@,
{
    match Regex::new(pattern) {
        Ok(compiled) => Some(Grammar { source: pattern.to_owned(), compiled }),
        Err(_) => None,
    }
}

/// Searches `line` with `regex::Regex::is_match`. Claimed, not proved: the
/// answer depends on the grammar's text and the line alone.
#[verifier::external_body]
pub(crate) fn is_match(grammar: &Grammar, line: &str) -> (found: bool)
    ensures
        found == pattern_matches(grammar@, line@),
{
    grammar.compiled.is_match(line)
}

/// Searches `line` with `regex::Regex::captures` and copies out the text of
/// the groups `first` and `second` (`Captures::name`, `Match::as_str`).
/// Claimed, not proved: the answer depends on the grammar's text, the line
/// and the two names alone.
#[verifier::external_body]
pub(crate) fn captures(grammar: &Grammar, line: &str, first: &str, second: &str) -> (found:
    Option<(Option<String>, Option<String>)>)
    ensures
        found.deep_view() == pattern_captures(grammar@, line@, first@, second@),
{
    match grammar.compiled.captures(line) {
        Some(groups) => Some(
            (
                groups.name(first).map(|m| m.as_str().to_owned()),
                groups.name(second).map(|m| m.as_str().to_owned()),
            ),
        ),
        None => None,
    }
}

/// Parses `text` with `chrono::NaiveDateTime::parse_from_str` under `format`
/// and says whether that succeeded. Claimed, not proved: the answer depends on
/// the two texts alone (no clock, locale or time zone is consulted).
#[verifier::external_body]
pub(crate) fn timestamp_is_valid(text: &str, format: &str) -> (ok: bool)
    ensures
        ok == timestamp_parses(text@, format@),
{
    NaiveDateTime::parse_from_str(text, format).is_ok()
}

impl Grammar {
    /// Compiles a grammar: `Some` where the pattern is a regular expression
    /// that the engine accepts, `None` where it is not.
    pub fn new(pattern: &str) -> (grammar: Option<Grammar>)
        ensures
            grammar is Some <==> pattern_compiles(pattern@),
            grammar matches Some(made) ==> made@ == pattern@,
    {
        compile(pattern)
    }

    /// The text that the grammar was compiled from.
    pub fn as_str(&self) -> (text: &str)
        ensures
            text@ == self@,
    {
        self.source.as_str()
    }
}

} // verus!
