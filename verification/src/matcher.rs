//! The regular expressions that lines are matched with, and what the `regex`
//! crate promises of them.

use crate::ansi::without_escapes;
use crate::grammar::{gcc_form, msvc_form, parts_view, LineParts, LinePartsView};
use regex::Regex;
use std::borrow::Cow;
use vstd::prelude::*;

verus! {

pub const GCC_PATTERN: &'static str =
    r"^(?P<f>(?:[A-Za-z]:)?[^:\n\r]+):(?P<l>\d+):(?P<c>\d+):\s+(?P<s>error|warning|note|fatal error):\s+(?P<m>.+)$";

pub const MSVC_PATTERN: &'static str =
    r"^(?P<f>[^()\n\r]+)\((?P<l>\d+),(?P<c>\d+)\):\s+(?P<s>error|warning|fatal error)\s+\w+:\s+(?P<m>.+)$";

pub const ANSI_PATTERN: &'static str = r"\x1b\[[0-9;]*[mGKHF]";

/// `regex::Regex`, a compiled regular expression.
#[verifier::external_type_specification]
#[verifier::external_body]
pub struct ExRegex(regex::Regex);

/// `regex::Error`, the reason why a pattern does not compile.
#[verifier::external_type_specification]
#[verifier::external_body]
pub struct ExRegexError(regex::Error);

/// What `Regex::new` makes of a pattern that it accepts.
pub uninterp spec fn regex_compiled(pattern: Seq<char>) -> Regex;

/// The groups `f`, `l`, `c`, `s` and `m` that `Regex::captures` finds in `line`
/// with the expression compiled from `pattern`.
pub uninterp spec fn regex_captures(pattern: Seq<char>, line: Seq<char>) -> Option<LinePartsView>;

/// `Regex::new`: what it makes of a pattern depends on the pattern alone, and
/// the three patterns of this module are well-formed and small enough for it.
#[verifier::external_body]
pub(crate) fn compile(pattern: &str) -> (res: Result<Regex, regex::Error>)
    ensures
        res matches Ok(re) ==> re == regex_compiled(pattern@),
        pattern@ == GCC_PATTERN@ || pattern@ == MSVC_PATTERN@ || pattern@ == ANSI_PATTERN@ ==> res
            is Ok,
{
    Regex::new(pattern)
}

/// `Regex::replace_all` with an empty replacement: all matches of the escape
/// sequence pattern are taken out, leftmost first, without overlap.
#[verifier::external_body]
pub(crate) fn remove_escapes<'a>(re: &Regex, s: &'a str) -> (res: Cow<'a, str>)
    requires
        *re == regex_compiled(ANSI_PATTERN@),
    ensures
        res@ == without_escapes(s@),
{
    re.replace_all(s, "")
}

/// `Regex::captures`, with the five groups that both line patterns name.
///
/// What it finds depends on the pattern and the line alone. With the pattern of
/// GCC it finds the fields of a line in that form, every gap as long as it can
/// be, and nothing in other lines. With the pattern of MSVC a match has that
/// form, and a line of that form whose code is ASCII is matched; which other
/// characters count as word characters is left unsaid.
#[verifier::external_body]
pub(crate) fn captures(re: &Regex, line: &str) -> (res: Option<LineParts>)
    requires
        *re == regex_compiled(GCC_PATTERN@) || *re == regex_compiled(MSVC_PATTERN@),
    ensures
        *re == regex_compiled(GCC_PATTERN@) ==> {
            &&& parts_view(res) == regex_captures(GCC_PATTERN@, line@)
            &&& res matches Some(p) ==> gcc_form(line@, p@)
            &&& forall|p: LinePartsView| #[trigger]
                gcc_form(line@, p) ==> parts_view(res) == Some(p)
        },
        *re == regex_compiled(MSVC_PATTERN@) ==> {
            &&& parts_view(res) == regex_captures(MSVC_PATTERN@, line@)
            &&& res matches Some(p) ==> msvc_form(line@, p@, false)
            &&& forall|p: LinePartsView| #[trigger]
                msvc_form(line@, p, true) ==> parts_view(res) == Some(p)
        },
{
    let cap = re.captures(line)?;
    Some(
        LineParts {
            file: cap["f"].to_string(),
            line: cap["l"].to_string(),
            col: cap["c"].to_string(),
            severity: cap["s"].to_string(),
            message: cap["m"].to_string(),
        },
    )
}

} // verus!
