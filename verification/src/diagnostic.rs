//! What a compiler has to say about one place in the source.

use crate::text::{
    clone_texts, decimal, law_decimal_is_shortest, law_decimal_reads_back, texts, to_decimal,
    u32_value,
};
use vstd::prelude::*;

verus! {

/// The colours that the screen uses.
#[derive(Debug, Clone, Copy, PartialEq, Eq, Structural)]
pub enum Color {
    Red,
    Yellow,
    Blue,
    Cyan,
    Gray,
    DarkGray,
    White,
}

#[derive(Debug, Clone, Copy, PartialEq, Eq, Structural)]
pub enum Severity {
    Error,
    Warning,
    Note,
    Other,
}

/// The colour that a severity is shown in.
pub open spec fn severity_color(severity: Severity) -> Color {
    match severity {
        Severity::Error => Color::Red,
        Severity::Warning => Color::Yellow,
        Severity::Note => Color::Cyan,
        Severity::Other => Color::Gray,
    }
}

/// The three-letter tag of a severity.
pub open spec fn severity_label(severity: Severity) -> Seq<char> {
    match severity {
        Severity::Error => "ERR"@,
        Severity::Warning => "WRN"@,
        Severity::Note => "NTE"@,
        Severity::Other => "   "@,
    }
}

impl Severity {
    pub fn color(&self) -> (res: Color)
        ensures
            res == severity_color(*self),
    {
        match self {
            Severity::Error => Color::Red,
            Severity::Warning => Color::Yellow,
            Severity::Note => Color::Cyan,
            Severity::Other => Color::Gray,
        }
    }

    pub fn label(&self) -> (res: &'static str)
        ensures
            res@ == severity_label(*self),
    {
        match self {
            Severity::Error => "ERR",
            Severity::Warning => "WRN",
            Severity::Note => "NTE",
            Severity::Other => "   ",
        }
    }
}

/// One diagnostic, with the output lines that followed it.
#[derive(Debug)]
pub struct Diagnostic {
    pub file: String,
    pub line: u32,
    pub col: u32,
    pub severity: Severity,
    pub message: String,
    pub context: Vec<String>,
}

/// A diagnostic as plain text and numbers.
#[verifier::ext_equal]
pub struct DiagnosticView {
    pub file: Seq<char>,
    pub line: u32,
    pub col: u32,
    pub severity: Severity,
    pub message: Seq<char>,
    pub context: Seq<Seq<char>>,
}

impl View for Diagnostic {
    type V = DiagnosticView;

    open spec fn view(&self) -> DiagnosticView {
        DiagnosticView {
            file: self.file@,
            line: self.line,
            col: self.col,
            severity: self.severity,
            message: self.message@,
            context: texts(self.context@),
        }
    }
}

impl Clone for Diagnostic {
    fn clone(&self) -> (res: Self)
        ensures
            res@ == self@,
    {
        Diagnostic {
            file: self.file.clone(),
            line: self.line,
            col: self.col,
            severity: self.severity,
            message: self.message.clone(),
            context: clone_texts(&self.context),
        }
    }
}

/// `file:line:col`, the form in which an editor takes a position.
pub open spec fn location_text(file: Seq<char>, line: u32, col: u32) -> Seq<char> {
    file + seq![':'] + decimal(line as nat) + seq![':'] + decimal(col as nat)
}

impl Diagnostic {
    pub fn location(&self) -> (res: String)
        ensures
            res@ == location_text(self.file@, self.line, self.col),
    {
        let mut res: String = self.file.clone();
        res.push(':');
        res.append(to_decimal(self.line as u64).as_str());
        res.push(':');
        res.append(to_decimal(self.col as u64).as_str());
        assert(res@ =~= location_text(self.file@, self.line, self.col));
        res
    }
}

/// Text is split at its last colon in one way only.
proof fn lemma_split_at_last_colon(a: Seq<char>, x: Seq<char>, b: Seq<char>, y: Seq<char>)
    requires
        a + seq![':'] + x == b + seq![':'] + y,
        forall|i: int| 0 <= i < x.len() ==> #[trigger] x[i] != ':',
        forall|i: int| 0 <= i < y.len() ==> #[trigger] y[i] != ':',
    ensures
        a == b,
        x == y,
{
    let s = a + seq![':'] + x;
    let t = b + seq![':'] + y;
    let m = a.len() as int;
    let n = b.len() as int;
    assert(s.len() == m + 1 + x.len() && t.len() == n + 1 + y.len());
    assert(s[m] == ':');
    assert(t[n] == ':');
    if m < n {
        assert(s[n] == x[n - m - 1]);
    }
    if n < m {
        assert(t[m] == y[m - n - 1]);
    }
    assert(s.take(m) =~= a);
    assert(t.take(n) =~= b);
    assert(s.skip(m + 1) =~= x);
    assert(t.skip(n + 1) =~= y);
}

/// A location names one file, one line and one column, whatever the file is
/// called.
pub proof fn law_location_is_unique(
    file: Seq<char>,
    line: u32,
    col: u32,
    other_file: Seq<char>,
    other_line: u32,
    other_col: u32,
)
    requires
        location_text(file, line, col) == location_text(other_file, other_line, other_col),
    ensures
        file == other_file,
        line == other_line,
        col == other_col,
{
    law_decimal_reads_back(line as nat);
    law_decimal_reads_back(col as nat);
    law_decimal_reads_back(other_line as nat);
    law_decimal_reads_back(other_col as nat);
    lemma_split_at_last_colon(
        file + seq![':'] + decimal(line as nat),
        decimal(col as nat),
        other_file + seq![':'] + decimal(other_line as nat),
        decimal(other_col as nat),
    );
    lemma_split_at_last_colon(file, decimal(line as nat), other_file, decimal(other_line as nat));
}

/// The diagnostics of a list.
pub open spec fn views(diagnostics: Seq<Diagnostic>) -> Seq<DiagnosticView> {
    diagnostics.map_values(|d: Diagnostic| d@)
}

/// Labels and colours tell severities apart, and all labels are equally wide.
pub proof fn law_severities_look_different(a: Severity, b: Severity)
    ensures
        severity_label(a).len() == 3,
        a != b ==> severity_label(a) != severity_label(b),
        a != b ==> severity_color(a) != severity_color(b),
{
    reveal_strlit("ERR");
    reveal_strlit("WRN");
    reveal_strlit("NTE");
    reveal_strlit("   ");
    assert("ERR"@[0] == 'E' && "WRN"@[0] == 'W' && "NTE"@[0] == 'N' && "   "@[0] == ' ');
}

/// A location is the file, a colon, the line in digits, a colon and the column
/// in digits; the digits, which are handed back, read as the two numbers.
pub proof fn law_location_spells_out_place(file: Seq<char>, line: u32, col: u32) -> (digits: (
    Seq<char>,
    Seq<char>,
))
    ensures
        location_text(file, line, col) == file + seq![':'] + digits.0 + seq![':'] + digits.1,
        forall|i: int| 0 <= i < digits.0.len() ==> '0' <= #[trigger] digits.0[i] <= '9',
        forall|i: int| 0 <= i < digits.1.len() ==> '0' <= #[trigger] digits.1[i] <= '9',
        u32_value(digits.0) == Some(line),
        u32_value(digits.1) == Some(col),
{
    law_decimal_reads_back(line as nat);
    law_decimal_reads_back(col as nat);
    law_decimal_is_shortest(line as nat);
    law_decimal_is_shortest(col as nat);
    (decimal(line as nat), decimal(col as nat))
}

/// The view of a diagnostic holds all of it.
pub proof fn law_diagnostic_view_is_whole(d: Diagnostic)
    ensures
        d@.file == d.file@,
        d@.line == d.line,
        d@.col == d.col,
        d@.severity == d.severity,
        d@.message == d.message@,
        d@.context.len() == d.context@.len(),
        forall|i: int| 0 <= i < d.context@.len() ==> #[trigger] d@.context[i] == d.context@[i]@,
{
}

/// The views of a list are those of its diagnostics, one by one.
pub proof fn law_views_are_whole(diagnostics: Seq<Diagnostic>)
    ensures
        views(diagnostics).len() == diagnostics.len(),
        forall|i: int|
            0 <= i < diagnostics.len() ==> #[trigger] views(diagnostics)[i] == diagnostics[i]@,
{
}

} // verus!
