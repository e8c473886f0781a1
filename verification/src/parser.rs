//! From a line of build output to a diagnostic.

use crate::ansi::{
    is_painted, is_plain, law_colours_are_stripped, law_plain_text_is_kept,
    lemma_gap_at_end_is_kept, lemma_unpainted_is_plain, painted_text, unpainted_text,
    without_escapes, Painted,
};
use crate::diagnostic::{Diagnostic, DiagnosticView, Severity};
use crate::grammar::{
    gcc_form, has_form, is_gap, law_gcc_fields_make_up_line, law_msvc_fields_make_up_line,
    lemma_forms_of_ascii_lines, msvc_form, LineParts, LinePartsView,
};
use crate::lines::{
    diagnostic_of, gcc_line, gcc_writable, law_fields_are_taken_over, law_gcc_line, law_msvc_line, msvc_line, msvc_writable,
    position, severity_of,
};
use crate::matcher::{
    captures, compile, regex_captures, regex_compiled, remove_escapes, ANSI_PATTERN, GCC_PATTERN,
    MSVC_PATTERN,
};
use crate::text::{
    decimal, law_decimal_is_shortest, law_end_is_trimmed, parse_u32, same_text, text_of, texts, trimmed, trimmed_end, white_space,
};
use regex::Regex;
use std::borrow::Cow;
use vstd::prelude::*;
use vstd::utf8::is_ascii_chars;

verus! {

/// A raw line without escape sequences and without white space at its end.
pub open spec fn cleaned(raw: Seq<char>) -> Seq<char> {
    trimmed_end(without_escapes(raw))
}

/// The fields of a line: in the form of GCC if it has that, else in that of
/// MSVC.
pub open spec fn matched_parts(line: Seq<char>) -> Option<LinePartsView> {
    match regex_captures(GCC_PATTERN@, line) {
        Some(p) => Some(p),
        None => regex_captures(MSVC_PATTERN@, line),
    }
}

/// The diagnostic on a raw line, if there is one.
pub open spec fn parsed_line(raw: Seq<char>) -> Option<DiagnosticView> {
    match matched_parts(cleaned(raw)) {
        Some(p) => Some(diagnostic_of(p)),
        None => None,
    }
}

pub open spec fn diagnostic_view(diagnostic: Option<Diagnostic>) -> Option<DiagnosticView> {
    match diagnostic {
        Some(d) => Some(d@),
        None => None,
    }
}

fn parse_severity(word: &str) -> (res: Severity)
    ensures
        res == severity_of(word@),
{
    if same_text(word, "error") || same_text(word, "fatal error") {
        Severity::Error
    } else if same_text(word, "warning") {
        Severity::Warning
    } else if same_text(word, "note") {
        Severity::Note
    } else {
        Severity::Other
    }
}

fn parse_position(numeral: &str) -> (res: u32)
    ensures
        res == position(numeral@),
{
    match parse_u32(numeral) {
        Some(n) => n,
        None => 1,
    }
}

impl Diagnostic {
    /// Makes a diagnostic, as yet without context, from the fields of a line.
    pub fn from_parts(parts: LineParts) -> (res: Diagnostic)
        ensures
            res@ == diagnostic_of(parts@),
            res.file@ == parts.file@,
            res.message@ == trimmed(parts.message@),
            res.context@.len() == 0,
    {
        let res = Diagnostic {
            line: parse_position(parts.line.as_str()),
            col: parse_position(parts.col.as_str()),
            severity: parse_severity(parts.severity.as_str()),
            message: parts.message.as_str().trim().to_owned(),
            file: parts.file,
            context: Vec::new(),
        };
        assert(texts(res.context@) =~= Seq::empty());
        res
    }
}

/// The compiled expressions that lines are read with.
pub struct Parser {
    gcc_re: Regex,
    msvc_re: Regex,
    ansi_re: Regex,
}

impl Parser {
    /// Each expression is the one compiled from its pattern.
    #[verifier::type_invariant]
    pub closed spec fn wf(self) -> bool {
        &&& self.gcc_re == regex_compiled(GCC_PATTERN@)
        &&& self.msvc_re == regex_compiled(MSVC_PATTERN@)
        &&& self.ansi_re == regex_compiled(ANSI_PATTERN@)
    }

    pub fn new() -> (res: Self)
        ensures
            res.wf(),
    {
        Parser {
            gcc_re: compile(GCC_PATTERN).unwrap(),
            msvc_re: compile(MSVC_PATTERN).unwrap(),
            ansi_re: compile(ANSI_PATTERN).unwrap(),
        }
    }

    /// Takes the escape sequences out of `s`.
    pub fn strip_ansi<'a>(&self, s: &'a str) -> (res: Cow<'a, str>)
        ensures
            res@ == without_escapes(s@),
    {
        proof {
            use_type_invariant(self);
        }
        remove_escapes(&self.ansi_re, s)
    }

    /// Reads the diagnostic on a raw line of output.
    pub fn parse_line(&self, raw: &str) -> (res: Option<Diagnostic>)
        ensures
            diagnostic_view(res) == parsed_line(raw@),
            has_form(cleaned(raw@), true) ==> res is Some,
            res is Some ==> has_form(cleaned(raw@), false),
            is_ascii_chars(cleaned(raw@)) ==> (res is Some <==> has_form(cleaned(raw@), true)),
            res matches Some(d) ==> exists|p: LinePartsView|
                (gcc_form(cleaned(raw@), p) || msvc_form(cleaned(raw@), p, false)) && d@
                    == #[trigger] diagnostic_of(p),
            forall|p: LinePartsView| #[trigger]
                gcc_form(cleaned(raw@), p) ==> diagnostic_view(res) == Some(diagnostic_of(p)),
            forall|p: LinePartsView| #[trigger]
                msvc_form(cleaned(raw@), p, true) && (forall|q: LinePartsView|
                    !gcc_form(cleaned(raw@), q)) ==> diagnostic_view(res) == Some(
                    diagnostic_of(p),
                ),
            forall|d: DiagnosticView, word: Seq<char>|
                gcc_writable(d, word) && cleaned(raw@) == #[trigger] gcc_line(d, word)
                    ==> diagnostic_view(res) == Some(d),
            forall|d: DiagnosticView, word: Seq<char>, code: Seq<char>|
                msvc_writable(d, word, code) && cleaned(raw@) == #[trigger] msvc_line(d, word, code)
                    ==> diagnostic_view(res) == Some(d),
            (forall|i: int| 0 <= i < raw@.len() ==> #[trigger] raw@[i] != '\u{1b}') ==> {
                &&& forall|d: DiagnosticView, word: Seq<char>|
                    gcc_writable(d, word) && raw@ == #[trigger] gcc_line(d, word)
                        ==> diagnostic_view(res) == Some(d)
                &&& forall|d: DiagnosticView, word: Seq<char>, code: Seq<char>|
                    msvc_writable(d, word, code) && raw@ == #[trigger] msvc_line(d, word, code)
                        ==> diagnostic_view(res) == Some(d)
            },
            res matches Some(d) ==> {
                &&& d.severity == Severity::Error || d.severity == Severity::Warning || d.severity
                    == Severity::Note
                &&& d.file@.len() > 0 && d.file@.is_prefix_of(cleaned(raw@))
                &&& d.message@.len() > 0 && d.message@.is_suffix_of(cleaned(raw@))
                &&& d.context@.len() == 0
            },
    {
        proof {
            use_type_invariant(self);
            assert forall|d: DiagnosticView, word: Seq<char>|
                gcc_writable(d, word) && cleaned(raw@) == #[trigger] gcc_line(
                    d,
                    word,
                ) implies exists|p: LinePartsView|
                gcc_form(cleaned(raw@), p) && d == #[trigger] diagnostic_of(p) by {
                law_gcc_line(d, word);
            }
            assert forall|d: DiagnosticView, word: Seq<char>, code: Seq<char>|
                msvc_writable(d, word, code) && cleaned(raw@) == #[trigger] msvc_line(
                    d,
                    word,
                    code,
                ) implies (exists|p: LinePartsView|
                msvc_form(cleaned(raw@), p, true) && d == #[trigger] diagnostic_of(p)) && (forall|
                q: LinePartsView,
            | !gcc_form(cleaned(raw@), q)) by {
                law_msvc_line(d, word, code);
            }
            if forall|i: int| 0 <= i < raw@.len() ==> #[trigger] raw@[i] != '\u{1b}' {
                law_plain_text_is_kept(raw@);
                assert forall|d: DiagnosticView, word: Seq<char>|
                    gcc_writable(d, word) && raw@ == #[trigger] gcc_line(d, word) implies cleaned(
                    raw@,
                ) == raw@ by {
                    law_gcc_line(d, word);
                }
                assert forall|d: DiagnosticView, word: Seq<char>, code: Seq<char>|
                    msvc_writable(d, word, code) && raw@ == #[trigger] msvc_line(
                        d,
                        word,
                        code,
                    ) implies cleaned(raw@) == raw@ by {
                    law_msvc_line(d, word, code);
                }
            }
        }
        let stripped: Cow<'_, str> = self.strip_ansi(raw);
        let clean: &str = text_of(&stripped).trim_end();
        let parts: Option<LineParts> = match captures(&self.gcc_re, clean) {
            Some(p) => Some(p),
            None => captures(&self.msvc_re, clean),
        };
        match parts {
            Some(p) => {
                proof {
                    if is_ascii_chars(clean@) {
                        lemma_forms_of_ascii_lines(clean@, p@);
                    }
                    law_end_is_trimmed(without_escapes(raw@));
                    lemma_fields_stand_in_line(clean@, p@);
                }
                Some(Diagnostic::from_parts(p))
            },
            None => None,
        }
    }
}

/// The file starts a line, and the message ends it.
proof fn lemma_fields_stand_in_line(line: Seq<char>, p: LinePartsView)
    requires
        gcc_form(line, p) || msvc_form(line, p, false),
        line.len() > 0 ==> !white_space(line.last()),
    ensures
        p.file.len() > 0 && p.file.is_prefix_of(line),
        diagnostic_of(p).message.len() > 0 && diagnostic_of(p).message.is_suffix_of(line),
        diagnostic_of(p).severity != Severity::Other,
{
    let cut = law_fields_are_taken_over(p);
    let message = diagnostic_of(p).message;
    if gcc_form(line, p) {
        let gaps = law_gcc_fields_make_up_line(line, p);
        assert(p.file =~= line.take(p.file.len() as int));
        assert(p.message =~= line.skip(line.len() - p.message.len()));
    } else {
        let rest = law_msvc_fields_make_up_line(line, p, false);
        assert(p.file =~= line.take(p.file.len() as int));
        assert(p.message =~= line.skip(line.len() - p.message.len()));
    }
    assert(line.last() == p.message.last());
    if cut.1.len() > 0 {
        assert(p.message.last() == cut.1.last());
        assert(white_space(cut.1[cut.1.len() - 1]));
    }
    if message.len() == 0 {
        assert(p.message.last() == cut.0.last());
        assert(white_space(cut.0[cut.0.len() - 1]));
    }
    assert(message =~= line.skip(line.len() - message.len()));
}

/// Colours make no difference to how a line is read.
pub proof fn law_colours_do_not_matter(start: Seq<char>, runs: Seq<Painted>)
    requires
        is_plain(start),
        is_painted(runs),
    ensures
        parsed_line(start + painted_text(runs)) == parsed_line(start + unpainted_text(runs)),
{
    law_colours_are_stripped(start, runs);
    lemma_unpainted_is_plain(runs);
    law_plain_text_is_kept(start + unpainted_text(runs));
}

proof fn lemma_trimmed_end_of_gap(s: Seq<char>, gap: Seq<char>)
    requires
        forall|i: int| 0 <= i < gap.len() ==> white_space(#[trigger] gap[i]),
    ensures
        trimmed_end(s + gap) == trimmed_end(s),
    decreases gap.len(),
{
    if gap.len() == 0 {
        assert(s + gap =~= s);
    } else {
        assert((s + gap).last() == gap.last());
        assert((s + gap).drop_last() =~= s + gap.drop_last());
        lemma_trimmed_end_of_gap(s, gap.drop_last());
    }
}

/// White space at the end of a line, such as a carriage return, makes no
/// difference to how it is read.
pub proof fn law_white_space_at_end_does_not_matter(raw: Seq<char>, gap: Seq<char>)
    requires
        is_gap(gap),
    ensures
        parsed_line(raw + gap) == parsed_line(raw),
{
    lemma_gap_at_end_is_kept(raw, gap);
    lemma_trimmed_end_of_gap(without_escapes(raw), gap);
}

/// A line is read as a whole: all that is left off is escape sequences and the
/// white space at its end, which is handed back.
pub proof fn law_lines_are_read_whole(raw: Seq<char>) -> (tail: Seq<char>)
    ensures
        without_escapes(raw) == cleaned(raw) + tail,
        forall|i: int| 0 <= i < tail.len() ==> white_space(#[trigger] tail[i]),
        cleaned(raw).len() > 0 ==> !white_space(cleaned(raw).last()),
{
    law_end_is_trimmed(without_escapes(raw))
}

/// A line of any length that holds no escape character and does not end in white
/// space is read as it stands.
pub proof fn law_plain_lines_are_read_as_they_stand(raw: Seq<char>)
    requires
        forall|i: int| 0 <= i < raw.len() ==> #[trigger] raw[i] != '\u{1b}',
        raw.len() > 0 ==> !white_space(raw.last()),
    ensures
        cleaned(raw) == raw,
{
    law_plain_text_is_kept(raw);
}

/// The view of a diagnostic that may be missing tells whether it is.
pub proof fn law_diagnostic_view_of_option(d: Diagnostic)
    ensures
        diagnostic_view(None) is None,
        diagnostic_view(Some(d)) == Some(d@),
{
}

/// What a compiler writes about a file, with a message of any length, is read as
/// it stands, unless the file or the message holds an escape character.
pub proof fn law_written_lines_are_read_as_they_stand(
    d: DiagnosticView,
    word: Seq<char>,
    code: Seq<char>,
)
    requires
        forall|i: int| 0 <= i < d.file.len() ==> #[trigger] d.file[i] != '\u{1b}',
        forall|i: int| 0 <= i < d.message.len() ==> #[trigger] d.message[i] != '\u{1b}',
    ensures
        gcc_writable(d, word) ==> cleaned(gcc_line(d, word)) == gcc_line(d, word),
        msvc_writable(d, word, code) ==> cleaned(msvc_line(d, word, code)) == msvc_line(
            d,
            word,
            code,
        ),
{
    let line = decimal(d.line as nat);
    let col = decimal(d.col as nat);
    law_decimal_is_shortest(d.line as nat);
    law_decimal_is_shortest(d.col as nat);
    reveal_strlit("error");
    reveal_strlit("warning");
    reveal_strlit("note");
    reveal_strlit("fatal error");
    let f = d.file.len();
    if gcc_writable(d, word) {
        law_gcc_line(d, word);
        let s = gcc_line(d, word);
        let a = f + 1 + line.len();
        let b = a + 1 + col.len() + 2;
        let c = b + word.len() + 2;
        assert forall|i: int| 0 <= i < s.len() implies #[trigger] s[i] != '\u{1b}' by {
            if i < f {
                assert(s[i] == d.file[i]);
            } else if f < i < a {
                assert(s[i] == line[i - f - 1]);
            } else if a < i < b - 2 {
                assert(s[i] == col[i - a - 1]);
            } else if b <= i < c - 2 {
                assert(s[i] == word[i - b]);
            } else if c <= i {
                assert(s[i] == d.message[i - c]);
            }
        }
        law_plain_text_is_kept(s);
    }
    if msvc_writable(d, word, code) {
        law_msvc_line(d, word, code);
        let s = msvc_line(d, word, code);
        let a = f + 1 + line.len();
        let b = a + 1 + col.len() + 3;
        let c = b + word.len() + 1;
        let e = c + code.len() + 2;
        assert forall|i: int| 0 <= i < s.len() implies #[trigger] s[i] != '\u{1b}' by {
            if i < f {
                assert(s[i] == d.file[i]);
            } else if f < i < a {
                assert(s[i] == line[i - f - 1]);
            } else if a < i < b - 3 {
                assert(s[i] == col[i - a - 1]);
            } else if b <= i < c - 1 {
                assert(s[i] == word[i - b]);
            } else if c <= i < e - 2 {
                assert(s[i] == code[i - c]);
            } else if e <= i {
                assert(s[i] == d.message[i - e]);
            }
        }
        law_plain_text_is_kept(s);
    }
}

} // verus!
