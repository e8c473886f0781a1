//! How a diagnostic line is read, and how compilers write one.

use crate::diagnostic::{location_text, DiagnosticView, Severity};
use crate::grammar::{
    gcc_form, gcc_text, is_decimal, is_digits, is_file, is_gap, is_gcc_file, is_msvc_severity, is_severity,
    is_word, law_no_digit_behind_colon, lemma_file_that_reads_as_gcc, lemma_msvc_is_not_gcc, msvc_form, msvc_text, reads_as_gcc, LinePartsView,
};
use crate::text::{
    decimal, law_both_ends_are_trimmed, law_decimal_reads_back, trimmed, trimmed_end, trimmed_start, u32_value, white_space,
};
use vstd::prelude::*;

verus! {

/// The severity that a line names.
pub open spec fn severity_of(word: Seq<char>) -> Severity {
    if word == "error"@ || word == "fatal error"@ {
        Severity::Error
    } else if word == "warning"@ {
        Severity::Warning
    } else if word == "note"@ {
        Severity::Note
    } else {
        Severity::Other
    }
}

/// A line or column number; one that does not fit counts as the first.
pub open spec fn position(numeral: Seq<char>) -> u32 {
    match u32_value(numeral) {
        Some(n) => n,
        None => 1,
    }
}

/// The diagnostic that the fields of a line make up.
pub open spec fn diagnostic_of(p: LinePartsView) -> DiagnosticView {
    DiagnosticView {
        file: p.file,
        line: position(p.line),
        col: position(p.col),
        severity: severity_of(p.severity),
        message: trimmed(p.message),
        context: Seq::empty(),
    }
}

/// The fields of the line that `d` is written as, with `word` for its severity.
pub open spec fn parts_of(d: DiagnosticView, word: Seq<char>) -> LinePartsView {
    LinePartsView {
        file: d.file,
        line: decimal(d.line as nat),
        col: decimal(d.col as nat),
        severity: word,
        message: d.message,
    }
}

/// A message that a line can carry: one line of text, not empty, with no white
/// space at either end.
pub open spec fn is_message(s: Seq<char>) -> bool {
    &&& s.len() > 0
    &&& !white_space(s.first())
    &&& !white_space(s.last())
    &&& forall|i: int| 0 <= i < s.len() ==> #[trigger] s[i] != '\n'
}

/// `file:line:col: severity: message`.
pub open spec fn gcc_line(d: DiagnosticView, word: Seq<char>) -> Seq<char> {
    location_text(d.file, d.line, d.col) + seq![':', ' '] + word + seq![':', ' '] + d.message
}

/// What GCC and Clang can write on one line, with `word` for the severity.
pub open spec fn gcc_writable(d: DiagnosticView, word: Seq<char>) -> bool {
    &&& is_gcc_file(d.file)
    &&& is_severity(word) && d.severity == severity_of(word)
    &&& is_message(d.message)
    &&& d.context == Seq::<Seq<char>>::empty()
}

/// `file(line,col): severity code: message`.
pub open spec fn msvc_line(d: DiagnosticView, word: Seq<char>, code: Seq<char>) -> Seq<char> {
    d.file + seq!['('] + decimal(d.line as nat) + seq![','] + decimal(d.col as nat) + seq![
        ')',
        ':',
        ' ',
    ] + word + seq![' '] + code + seq![':', ' '] + d.message
}

/// What MSVC can write on one line, with `word` for the severity. A file that
/// itself reads like a line of GCC is left out: the whole line is then one.
pub open spec fn msvc_writable(d: DiagnosticView, word: Seq<char>, code: Seq<char>) -> bool {
    &&& is_file(d.file, '(', ')')
    &&& !reads_as_gcc(d.file)
    &&& is_msvc_severity(word) && d.severity == severity_of(word)
    &&& is_word(code, true)
    &&& is_message(d.message)
    &&& d.context == Seq::<Seq<char>>::empty()
}

proof fn lemma_fields_read_back(d: DiagnosticView, word: Seq<char>)
    requires
        d.severity == severity_of(word),
        is_message(d.message),
        d.context == Seq::<Seq<char>>::empty(),
    ensures
        diagnostic_of(parts_of(d, word)) == d,
        is_digits(parts_of(d, word).line),
        is_digits(parts_of(d, word).col),
{
    law_decimal_reads_back(d.line as nat);
    law_decimal_reads_back(d.col as nat);
    assert(trimmed_end(d.message) == d.message);
    assert(trimmed_start(d.message) == d.message);
    assert(diagnostic_of(parts_of(d, word)) =~= d);
}

/// A line that GCC or Clang writes has their form, and its fields make up the
/// diagnostic that it was written for.
pub proof fn law_gcc_line(d: DiagnosticView, word: Seq<char>)
    requires
        gcc_writable(d, word),
    ensures
        gcc_form(gcc_line(d, word), parts_of(d, word)),
        diagnostic_of(parts_of(d, word)) == d,
        trimmed_end(gcc_line(d, word)) == gcc_line(d, word),
{
    lemma_fields_read_back(d, word);
    let gap = seq![' '];
    assert(is_gap(gap));
    assert(gcc_line(d, word) =~= gcc_text(parts_of(d, word), gap, gap));
    assert(gcc_line(d, word).last() == d.message.last());
}

/// A line that MSVC writes has its form and not that of GCC, and its fields
/// make up the diagnostic that it was written for.
pub proof fn law_msvc_line(d: DiagnosticView, word: Seq<char>, code: Seq<char>)
    requires
        msvc_writable(d, word, code),
    ensures
        msvc_form(msvc_line(d, word, code), parts_of(d, word), true),
        forall|q: LinePartsView| !gcc_form(msvc_line(d, word, code), q),
        diagnostic_of(parts_of(d, word)) == d,
        trimmed_end(msvc_line(d, word, code)) == msvc_line(d, word, code),
{
    lemma_fields_read_back(d, word);
    let gap = seq![' '];
    assert(is_gap(gap));
    assert(msvc_line(d, word, code) =~= msvc_text(parts_of(d, word), gap, gap, code, gap));
    assert(msvc_line(d, word, code).last() == d.message.last());
    assert(is_word(code, false));
    assert(msvc_form(msvc_line(d, word, code), parts_of(d, word), false));
    lemma_msvc_is_not_gcc(msvc_line(d, word, code), parts_of(d, word));
}

/// The lines that are left out are read as lines of GCC.
pub proof fn law_msvc_line_with_gcc_file(d: DiagnosticView, word: Seq<char>, code: Seq<char>)
    requires
        reads_as_gcc(d.file),
        is_msvc_severity(word),
        is_word(code, true),
        is_message(d.message),
    ensures
        exists|q: LinePartsView| gcc_form(msvc_line(d, word, code), q),
{
    let line = decimal(d.line as nat);
    let col = decimal(d.col as nat);
    let tail = line + seq![','] + col + seq![')', ':', ' '] + word + seq![' '] + code + seq![
        ':',
        ' ',
    ] + d.message;
    law_decimal_reads_back(d.line as nat);
    law_decimal_reads_back(d.col as nat);
    assert forall|i: int| 0 <= i < word.len() implies #[trigger] word[i] != '\n' by {
        reveal_strlit("error");
        reveal_strlit("warning");
        reveal_strlit("fatal error");
    }
    let a = line.len() + col.len() + 4;
    let b = a + word.len() + 1;
    let c = b + code.len() + 2;
    assert forall|i: int| 0 <= i < tail.len() implies #[trigger] tail[i] != '\n' by {
        if i < line.len() {
            assert(tail[i] == line[i]);
        } else if line.len() < i < a - 3 {
            assert(tail[i] == col[i - line.len() - 1]);
        } else if a <= i < b - 1 {
            assert(tail[i] == word[i - a]);
        } else if b <= i < c - 2 {
            assert(tail[i] == code[i - b]);
        } else if c <= i {
            assert(tail[i] == d.message[i - c]);
        }
    }
    lemma_file_that_reads_as_gcc(d.file, tail);
    assert(msvc_line(d, word, code) =~= d.file.push('(') + tail);
}

/// What an editor is told is how the line of GCC starts.
pub proof fn law_location_starts_gcc_line(d: DiagnosticView, word: Seq<char>)
    ensures
        location_text(d.file, d.line, d.col).is_prefix_of(gcc_line(d, word)),
{
}

/// A diagnostic has the file of its line, unchanged; the numbers that its digits
/// stand for, as far as they fit; the severity that its word names; its message
/// but for white space around it; and no context yet. The white space is handed
/// back.
pub proof fn law_fields_are_taken_over(p: LinePartsView) -> (cut: (Seq<char>, Seq<char>))
    ensures
        diagnostic_of(p).file == p.file,
        p.message == cut.0 + diagnostic_of(p).message + cut.1,
        forall|i: int| 0 <= i < cut.0.len() ==> white_space(#[trigger] cut.0[i]),
        forall|i: int| 0 <= i < cut.1.len() ==> white_space(#[trigger] cut.1[i]),
        diagnostic_of(p).message.len() > 0 ==> !white_space(diagnostic_of(p).message.first())
            && !white_space(diagnostic_of(p).message.last()),
        diagnostic_of(p).context.len() == 0,
        forall|n: u32| p.line == decimal(n as nat) ==> diagnostic_of(p).line == n,
        forall|n: u32| p.col == decimal(n as nat) ==> diagnostic_of(p).col == n,
        diagnostic_of(p).line == match u32_value(p.line) {
            Some(n) => n,
            None => 1,
        },
        diagnostic_of(p).col == match u32_value(p.col) {
            Some(n) => n,
            None => 1,
        },
        diagnostic_of(p).severity == Severity::Error <==> p.severity == "error"@ || p.severity
            == "fatal error"@,
        diagnostic_of(p).severity == Severity::Warning <==> p.severity == "warning"@,
        diagnostic_of(p).severity == Severity::Note <==> p.severity == "note"@,
{
    reveal_strlit("error");
    reveal_strlit("fatal error");
    reveal_strlit("warning");
    reveal_strlit("note");
    assert("error"@.len() == 5 && "fatal error"@.len() == 11 && "warning"@.len() == 7
        && "note"@.len() == 4);
    assert forall|n: u32| p.line == decimal(n as nat) implies diagnostic_of(p).line == n by {
        law_decimal_reads_back(n as nat);
    }
    assert forall|n: u32| p.col == decimal(n as nat) implies diagnostic_of(p).col == n by {
        law_decimal_reads_back(n as nat);
    }
    law_both_ends_are_trimmed(p.message)
}

/// Compilers can write any file, any place and any message of one line: nothing
/// but separators and line breaks stands in the way, and no length does.
pub proof fn law_everything_can_be_written(d: DiagnosticView, word: Seq<char>, code: Seq<char>)
    requires
        d.file.len() > 0,
        d.message.len() > 0,
        !white_space(d.message.first()) && !white_space(d.message.last()),
        forall|i: int| 0 <= i < d.message.len() ==> #[trigger] d.message[i] != '\n',
        d.context.len() == 0,
        (word == "error"@ || word == "fatal error"@) && d.severity == Severity::Error || word
            == "warning"@ && d.severity == Severity::Warning || word == "note"@ && d.severity
            == Severity::Note,
        code.len() > 0 && forall|i: int|
            0 <= i < code.len() ==> '0' <= #[trigger] code[i] <= '9' || 'a' <= code[i] <= 'z' || 'A'
                <= code[i] <= 'Z' || code[i] == '_',
    ensures
        (forall|i: int|
            0 <= i < d.file.len() ==> #[trigger] d.file[i] != ':' && d.file[i] != '\n' && d.file[i]
                != '\r') ==> gcc_writable(d, word),
        (forall|i: int|
            0 <= i < d.file.len() ==> #[trigger] d.file[i] != '(' && d.file[i] != ')' && d.file[i]
                != '\n' && d.file[i] != '\r') && (forall|i: int|
            0 <= i < d.file.len() - 1 && d.file[i] == ':' ==> !is_decimal(
                #[trigger] d.file[i + 1],
            )) && word != "note"@ ==> msvc_writable(d, word, code),
{
    reveal_strlit("error");
    reveal_strlit("fatal error");
    reveal_strlit("warning");
    reveal_strlit("note");
    assert("error"@.len() == 5 && "fatal error"@.len() == 11 && "warning"@.len() == 7
        && "note"@.len() == 4);
    assert(d.context =~= Seq::empty());
    assert(is_word(code, true));
    if forall|i: int|
        0 <= i < d.file.len() - 1 && d.file[i] == ':' ==> !is_decimal(#[trigger] d.file[i + 1]) {
        law_no_digit_behind_colon(d.file);
    }
}

/// The lines that compilers write spell out every field of a diagnostic.
pub proof fn law_lines_spell_out_fields(d: DiagnosticView, word: Seq<char>, code: Seq<char>)
    ensures
        gcc_line(d, word) == d.file + seq![':'] + decimal(d.line as nat) + seq![':'] + decimal(
            d.col as nat,
        ) + seq![':', ' '] + word + seq![':', ' '] + d.message,
        msvc_line(d, word, code) == d.file + seq!['('] + decimal(d.line as nat) + seq![',']
            + decimal(d.col as nat) + seq![')', ':', ' '] + word + seq![' '] + code + seq![':', ' ']
            + d.message,
{
}

} // verus!
