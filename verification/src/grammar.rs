//! The two forms of diagnostic lines, `file:line:col: severity: message` of
//! GCC and Clang and `file(line,col): severity code: message` of MSVC.

use crate::text::{is_digit, white_space};
use vstd::prelude::*;
use vstd::utf8::is_ascii_chars;

verus! {

/// The fields of a diagnostic line as they stand in it.
#[derive(Debug)]
pub struct LineParts {
    pub file: String,
    pub line: String,
    pub col: String,
    pub severity: String,
    pub message: String,
}

#[verifier::ext_equal]
pub struct LinePartsView {
    pub file: Seq<char>,
    pub line: Seq<char>,
    pub col: Seq<char>,
    pub severity: Seq<char>,
    pub message: Seq<char>,
}

impl View for LineParts {
    type V = LinePartsView;

    open spec fn view(&self) -> LinePartsView {
        LinePartsView {
            file: self.file@,
            line: self.line@,
            col: self.col@,
            severity: self.severity@,
            message: self.message@,
        }
    }
}

pub open spec fn parts_view(parts: Option<LineParts>) -> Option<LinePartsView> {
    match parts {
        Some(p) => Some(p@),
        None => None,
    }
}

/// White space, at least one character of it.
pub open spec fn is_gap(s: Seq<char>) -> bool {
    s.len() > 0 && forall|i: int| 0 <= i < s.len() ==> white_space(#[trigger] s[i])
}

/// A character beyond ASCII that is not white space: the only ones, besides
/// those of ASCII, that a Unicode class of digits or of letters can hold.
pub open spec fn beyond_ascii(c: char) -> bool {
    c > '\u{7f}' && !white_space(c)
}

/// `c` is one of ten digits in a row, of which `zero` is the first.
pub open spec fn ten_from(c: char, zero: int) -> bool {
    zero <= c as int <= zero + 9
}

/// A decimal digit beyond ASCII: one of general category `Nd` in Unicode 16.
#[verifier::opaque]
pub open spec fn is_foreign_digit(c: char) -> bool {
    ||| ten_from(c, 0x660) || ten_from(c, 0x6f0) || ten_from(c, 0x7c0) || ten_from(c, 0x966)
    ||| ten_from(c, 0x9e6) || ten_from(c, 0xa66) || ten_from(c, 0xae6) || ten_from(c, 0xb66)
    ||| ten_from(c, 0xbe6) || ten_from(c, 0xc66) || ten_from(c, 0xce6) || ten_from(c, 0xd66)
    ||| ten_from(c, 0xde6) || ten_from(c, 0xe50) || ten_from(c, 0xed0) || ten_from(c, 0xf20)
    ||| ten_from(c, 0x1040) || ten_from(c, 0x1090) || ten_from(c, 0x17e0) || ten_from(c, 0x1810)
    ||| ten_from(c, 0x1946) || ten_from(c, 0x19d0) || ten_from(c, 0x1a80) || ten_from(c, 0x1a90)
    ||| ten_from(c, 0x1b50) || ten_from(c, 0x1bb0) || ten_from(c, 0x1c40) || ten_from(c, 0x1c50)
    ||| ten_from(c, 0xa620) || ten_from(c, 0xa8d0) || ten_from(c, 0xa900) || ten_from(c, 0xa9d0)
    ||| ten_from(c, 0xa9f0) || ten_from(c, 0xaa50) || ten_from(c, 0xabf0) || ten_from(c, 0xff10)
    ||| ten_from(c, 0x104a0) || ten_from(c, 0x10d30) || ten_from(c, 0x10d40) || ten_from(c, 0x11066)
    ||| ten_from(c, 0x110f0) || ten_from(c, 0x11136) || ten_from(c, 0x111d0) || ten_from(c, 0x112f0)
    ||| ten_from(c, 0x11450) || ten_from(c, 0x114d0) || ten_from(c, 0x11650) || ten_from(c, 0x116c0)
    ||| ten_from(c, 0x116d0) || ten_from(c, 0x116da) || ten_from(c, 0x11730) || ten_from(c, 0x118e0)
    ||| ten_from(c, 0x11950) || ten_from(c, 0x11bf0) || ten_from(c, 0x11c50) || ten_from(c, 0x11d50)
    ||| ten_from(c, 0x11da0) || ten_from(c, 0x11f50) || ten_from(c, 0x16130) || ten_from(c, 0x16a60)
    ||| ten_from(c, 0x16ac0) || ten_from(c, 0x16b50) || ten_from(c, 0x16d70) || ten_from(c, 0x1ccf0)
    ||| ten_from(c, 0x1d7ce) || ten_from(c, 0x1d7d8) || ten_from(c, 0x1d7e2) || ten_from(c, 0x1d7ec)
    ||| ten_from(c, 0x1d7f6) || ten_from(c, 0x1e140) || ten_from(c, 0x1e2f0) || ten_from(c, 0x1e4f0)
    ||| ten_from(c, 0x1e5f1) || ten_from(c, 0x1e950) || ten_from(c, 0x1fbf0)
}

/// A decimal digit of any script.
pub open spec fn is_decimal(c: char) -> bool {
    is_digit(c) || is_foreign_digit(c)
}

/// No decimal digit beyond ASCII is white space.
pub proof fn lemma_foreign_digit(c: char)
    requires
        is_foreign_digit(c),
    ensures
        beyond_ascii(c),
{
    reveal(is_foreign_digit);
}

/// One or more decimal digits.
pub open spec fn is_digits(s: Seq<char>) -> bool {
    s.len() > 0 && forall|i: int| 0 <= i < s.len() ==> is_decimal(#[trigger] s[i])
}

/// A letter, a digit or an underscore of ASCII.
pub open spec fn is_word_char(c: char) -> bool {
    is_digit(c) || 'a' <= c <= 'z' || 'A' <= c <= 'Z' || c == '_'
}

/// One or more word characters. With `ascii` they are those of ASCII; without,
/// those of other scripts may be among them.
pub open spec fn is_word(s: Seq<char>, ascii: bool) -> bool {
    s.len() > 0 && forall|i: int|
        0 <= i < s.len() ==> is_word_char(#[trigger] s[i]) || (!ascii && beyond_ascii(s[i]))
}

/// `s` is not empty and holds neither a line break nor one of `a` and `b`.
pub open spec fn is_file(s: Seq<char>, a: char, b: char) -> bool {
    s.len() > 0 && forall|i: int|
        0 <= i < s.len() ==> #[trigger] s[i] != a && s[i] != b && s[i] != '\n' && s[i] != '\r'
}

pub open spec fn is_letter(c: char) -> bool {
    'a' <= c <= 'z' || 'A' <= c <= 'Z'
}

/// `s` starts with the letter of a drive and a colon.
pub open spec fn has_drive(s: Seq<char>) -> bool {
    s.len() > 2 && is_letter(s[0]) && s[1] == ':'
}

/// `s` is a file without a colon, or such a file behind the letter of a drive.
pub open spec fn is_gcc_file(s: Seq<char>) -> bool {
    is_file(s, ':', ':') || (has_drive(s) && is_file(s.skip(2), ':', ':'))
}

pub open spec fn is_severity(word: Seq<char>) -> bool {
    word == "error"@ || word == "warning"@ || word == "note"@ || word == "fatal error"@
}

/// The severities that have a code behind them in the form of MSVC.
pub open spec fn is_msvc_severity(word: Seq<char>) -> bool {
    word == "error"@ || word == "warning"@ || word == "fatal error"@
}

/// `s` is the rest of a line behind the longest gap that leaves any rest.
pub open spec fn is_rest(s: Seq<char>) -> bool {
    &&& s.len() > 0
    &&& forall|i: int| 0 <= i < s.len() ==> #[trigger] s[i] != '\n'
    &&& s.len() == 1 || !white_space(s[0])
}

pub open spec fn gcc_text(p: LinePartsView, gap1: Seq<char>, gap2: Seq<char>) -> Seq<char> {
    p.file + seq![':'] + p.line + seq![':'] + p.col + seq![':'] + gap1 + p.severity + seq![':']
        + gap2 + p.message
}

/// `s` is a line in the form of GCC, and `p` are its fields.
pub open spec fn gcc_form(s: Seq<char>, p: LinePartsView) -> bool {
    &&& is_gcc_file(p.file)
    &&& is_digits(p.line)
    &&& is_digits(p.col)
    &&& is_severity(p.severity)
    &&& is_rest(p.message)
    &&& exists|gap1: Seq<char>, gap2: Seq<char>|
        is_gap(gap1) && is_gap(gap2) && s == #[trigger] gcc_text(p, gap1, gap2)
}

pub open spec fn msvc_text(
    p: LinePartsView,
    gap1: Seq<char>,
    gap2: Seq<char>,
    code: Seq<char>,
    gap3: Seq<char>,
) -> Seq<char> {
    p.file + seq!['('] + p.line + seq![','] + p.col + seq![')', ':'] + gap1 + p.severity + gap2
        + code + seq![':'] + gap3 + p.message
}

/// `s` is a line in the form of MSVC, and `p` are its fields. With `ascii` the
/// code is made of word characters of ASCII.
pub open spec fn msvc_form(s: Seq<char>, p: LinePartsView, ascii: bool) -> bool {
    &&& is_file(p.file, '(', ')')
    &&& is_digits(p.line)
    &&& is_digits(p.col)
    &&& is_msvc_severity(p.severity)
    &&& is_rest(p.message)
    &&& exists|gap1: Seq<char>, gap2: Seq<char>, code: Seq<char>, gap3: Seq<char>|
        is_gap(gap1) && is_gap(gap2) && is_word(code, ascii) && is_gap(gap3)
            && s == #[trigger] msvc_text(p, gap1, gap2, code, gap3)
}

/// `s` has one of the two forms.
pub open spec fn has_form(s: Seq<char>, ascii: bool) -> bool {
    (exists|p: LinePartsView| gcc_form(s, p)) || (exists|p: LinePartsView|
        msvc_form(s, p, ascii))
}

/// In a line of ASCII the code is made of word characters of ASCII.
pub proof fn lemma_forms_of_ascii_lines(s: Seq<char>, p: LinePartsView)
    requires
        is_ascii_chars(s),
    ensures
        msvc_form(s, p, false) == msvc_form(s, p, true),
{
    if msvc_form(s, p, false) {
        let (gap1, gap2, code, gap3) = choose|
            gap1: Seq<char>,
            gap2: Seq<char>,
            code: Seq<char>,
            gap3: Seq<char>,
        |
            is_gap(gap1) && is_gap(gap2) && is_word(code, false) && is_gap(gap3)
                && s == #[trigger] msvc_text(p, gap1, gap2, code, gap3);
        let k = p.file.len() + p.line.len() + p.col.len() + 4 + gap1.len() + p.severity.len()
            + gap2.len();
        assert forall|i: int| 0 <= i < code.len() implies is_word_char(#[trigger] code[i]) by {
            assert(s[k + i] == code[i]);
        }
        assert(is_word(code, true));
    }
}

/// `file` itself, with the bracket behind it in a line of MSVC, is in the form
/// of GCC.
pub open spec fn reads_as_gcc(file: Seq<char>) -> bool {
    exists|p: LinePartsView| gcc_form(file.push('('), p)
}

/// Where the message of a line in the form of GCC starts.
spec fn head_len(p: LinePartsView, gap1: Seq<char>, gap2: Seq<char>) -> nat {
    p.file.len() + p.line.len() + p.col.len() + 4 + gap1.len() + p.severity.len() + gap2.len()
}

/// There is no bracket between the file and the message of a line of GCC.
proof fn lemma_no_bracket_in_head(p: LinePartsView, gap1: Seq<char>, gap2: Seq<char>, i: int)
    requires
        is_digits(p.line),
        is_digits(p.col),
        is_severity(p.severity),
        is_gap(gap1),
        is_gap(gap2),
        p.file.len() <= i < head_len(p, gap1, gap2),
    ensures
        gcc_text(p, gap1, gap2)[i] != '(',
{
    let s = gcc_text(p, gap1, gap2);
    let a = p.file.len() + 1;
    let b = a + p.line.len() + 1;
    let c = b + p.col.len() + 1;
    let d = c + gap1.len();
    let e = d + p.severity.len() + 1;
    lemma_severity_word(p.severity);
    if a <= i < b - 1 {
        assert(s[i] == p.line[i - a]);
        lemma_decimal(p.line[i - a]);
    } else if b <= i < c - 1 {
        assert(s[i] == p.col[i - b]);
        lemma_decimal(p.col[i - b]);
    } else if c <= i < d {
        assert(s[i] == gap1[i - c]);
    } else if d <= i < e - 1 {
        assert(s[i] == p.severity[i - d]);
    } else if e <= i {
        assert(s[i] == gap2[i - e]);
    } else {
        assert(s[i] == ':');
    }
}

/// A decimal digit is neither white space nor one of the separators.
proof fn lemma_decimal(c: char)
    requires
        is_decimal(c),
    ensures
        !white_space(c),
        c != ':' && c != '(' && c != ')' && c != ',',
{
    if is_foreign_digit(c) {
        lemma_foreign_digit(c);
    }
}

/// The file of a line of GCC that is also one of MSVC ends before the bracket.
proof fn lemma_file_ends_before_bracket(
    p: LinePartsView,
    gap1: Seq<char>,
    rest: Seq<char>,
    q: LinePartsView,
    h1: Seq<char>,
    h2: Seq<char>,
)
    requires
        p.file.len() > 0,
        is_digits(p.line),
        is_digits(p.col),
        is_gap(gap1),
        is_gcc_file(q.file),
        is_digits(q.line),
        gcc_text(q, h1, h2) == p.file + seq!['('] + p.line + seq![','] + p.col + seq![')', ':']
            + gap1 + rest,
    ensures
        q.file.len() <= p.file.len(),
{
    let s = gcc_text(q, h1, h2);
    let k = q.file.len() as int;
    let n = p.file.len() as int;
    if k > n {
        let end = n + p.line.len() + p.col.len() + 3;
        assert(s[k] == ':');
        assert(s[k + 1] == q.line[0]);
        lemma_decimal(q.line[0]);
        assert(q.file[n] == s[n]);
        assert(s[n] == '(');
        assert forall|i: int| n <= i < end implies s[i] != ':' by {
            if n < i < n + 1 + p.line.len() {
                assert(s[i] == p.line[i - n - 1]);
                lemma_decimal(p.line[i - n - 1]);
            } else if n + 2 + p.line.len() <= i < end - 1 {
                assert(s[i] == p.col[i - n - 2 - p.line.len()]);
                lemma_decimal(p.col[i - n - 2 - p.line.len()]);
            }
        }
        assert(s[end] == ':');
        if k > end {
            assert(q.file[end] == s[end]);
            if has_drive(q.file) {
                assert(q.file.skip(2)[end - 2] == q.file[end]);
            }
        }
        assert(s[end + 1] == gap1[0]);
    }
}

/// A line of MSVC is not one of GCC, unless its file reads like one.
pub proof fn lemma_msvc_is_not_gcc(s: Seq<char>, p: LinePartsView)
    requires
        msvc_form(s, p, false),
        !reads_as_gcc(p.file),
    ensures
        forall|q: LinePartsView| !gcc_form(s, q),
{
    let (gap1, gap2, code, gap3) = choose|
        gap1: Seq<char>,
        gap2: Seq<char>,
        code: Seq<char>,
        gap3: Seq<char>,
    |
        is_gap(gap1) && is_gap(gap2) && is_word(code, false) && is_gap(gap3)
            && s == #[trigger] msvc_text(p, gap1, gap2, code, gap3);
    assert forall|q: LinePartsView| !gcc_form(s, q) by {
        if gcc_form(s, q) {
            let (h1, h2) = choose|h1: Seq<char>, h2: Seq<char>|
                is_gap(h1) && is_gap(h2) && s == #[trigger] gcc_text(q, h1, h2);
            let n = p.file.len() as int;
            let head = head_len(q, h1, h2);
            let rest = p.severity + gap2 + code + seq![':'] + gap3 + p.message;
            assert(s =~= p.file + seq!['('] + p.line + seq![','] + p.col + seq![')', ':'] + gap1
                + rest);
            lemma_file_ends_before_bracket(p, gap1, rest, q, h1, h2);
            assert(s[n] == '(');
            if n < head {
                lemma_no_bracket_in_head(q, h1, h2, n);
            }
            let part = LinePartsView { message: q.message.take(n + 1 - head), ..q };
            assert(p.file.push('(') =~= gcc_text(part, h1, h2)) by {
                assert(s.take(n + 1) =~= p.file.push('('));
                assert(s.take(n + 1) =~= gcc_text(part, h1, h2));
            }
            assert(gcc_form(p.file.push('('), part));
        }
    }
}

/// Where the file of a line reads like a line of GCC, the whole line is one.
pub proof fn lemma_file_that_reads_as_gcc(file: Seq<char>, tail: Seq<char>)
    requires
        reads_as_gcc(file),
        forall|i: int| 0 <= i < tail.len() ==> #[trigger] tail[i] != '\n',
    ensures
        exists|q: LinePartsView| gcc_form(file.push('(') + tail, q),
{
    let s = file.push('(');
    let p = choose|p: LinePartsView| gcc_form(s, p);
    let (g1, g2) = choose|g1: Seq<char>, g2: Seq<char>|
        is_gap(g1) && is_gap(g2) && s == #[trigger] gcc_text(p, g1, g2);
    let q = LinePartsView { message: p.message + tail, ..p };
    assert(s.last() == p.message.last());
    assert(s + tail =~= gcc_text(q, g1, g2));
    assert(gcc_form(s + tail, q));
}

/// A file in which no colon stands directly before a digit does not read like a
/// line of GCC.
pub proof fn law_no_digit_behind_colon(file: Seq<char>)
    requires
        forall|i: int|
            0 <= i < file.len() - 1 && file[i] == ':' ==> !is_decimal(#[trigger] file[i + 1]),
    ensures
        !reads_as_gcc(file),
{
    if reads_as_gcc(file) {
        let s = file.push('(');
        let p = choose|p: LinePartsView| gcc_form(s, p);
        let (g1, g2) = choose|g1: Seq<char>, g2: Seq<char>|
            is_gap(g1) && is_gap(g2) && s == #[trigger] gcc_text(p, g1, g2);
        let k = p.file.len() as int;
        assert(s[k] == ':');
        assert(s[k + 1] == p.line[0]);
        lemma_decimal(p.line[0]);
        assert(s.len() > k + 1 && s[file.len() as int] == '(');
        assert(file[k] == s[k]);
        assert(file[k + 1] == s[k + 1]);
    }
}

/// Text is split at its first `sep` in one way only.
proof fn lemma_split(a: Seq<char>, x: Seq<char>, b: Seq<char>, y: Seq<char>, sep: char)
    requires
        a + (seq![sep] + x) == b + (seq![sep] + y),
        forall|i: int| 0 <= i < a.len() ==> #[trigger] a[i] != sep,
        forall|i: int| 0 <= i < b.len() ==> #[trigger] b[i] != sep,
    ensures
        a == b,
        x == y,
{
    let s = a + (seq![sep] + x);
    let t = b + (seq![sep] + y);
    assert(s[a.len() as int] == sep);
    assert(t[b.len() as int] == sep);
    if a.len() < b.len() {
        assert(t[a.len() as int] == b[a.len() as int]);
    }
    if b.len() < a.len() {
        assert(s[b.len() as int] == a[b.len() as int]);
    }
    assert(s.take(a.len() as int) =~= a);
    assert(t.take(b.len() as int) =~= b);
    assert(s.skip(a.len() as int + 1) =~= x);
    assert(t.skip(b.len() as int + 1) =~= y);
}

/// White space is split off in one way only, where none follows it.
proof fn lemma_split_gap(a: Seq<char>, x: Seq<char>, b: Seq<char>, y: Seq<char>)
    requires
        a + x == b + y,
        is_gap(a),
        is_gap(b),
        x.len() > 0 && (x.len() == 1 || !white_space(x[0])),
        y.len() > 0 && (y.len() == 1 || !white_space(y[0])),
    ensures
        a == b,
        x == y,
{
    let s = a + x;
    let t = b + y;
    assert(s.len() == t.len());
    if a.len() < b.len() {
        assert(s[a.len() as int] == x[0]);
        assert(t[a.len() as int] == b[a.len() as int]);
    }
    if b.len() < a.len() {
        assert(t[b.len() as int] == y[0]);
        assert(s[b.len() as int] == a[b.len() as int]);
    }
    assert(s.take(a.len() as int) =~= a);
    assert(t.take(b.len() as int) =~= b);
    assert(s.skip(a.len() as int) =~= x);
    assert(t.skip(b.len() as int) =~= y);
}

/// The words for severities start with a letter and hold no separator.
proof fn lemma_severity_word(word: Seq<char>)
    requires
        is_severity(word),
    ensures
        word.len() > 0,
        !white_space(word[0]),
        forall|i: int| 0 <= i < word.len() ==> #[trigger] word[i] != ':' && word[i] != '(',
{
    reveal_strlit("error");
    reveal_strlit("warning");
    reveal_strlit("note");
    reveal_strlit("fatal error");
}

proof fn lemma_msvc_severity(a: Seq<char>, b: Seq<char>)
    requires
        is_msvc_severity(a),
        is_msvc_severity(b),
        a[0] == b[0],
    ensures
        a == b,
{
    reveal_strlit("error");
    reveal_strlit("warning");
    reveal_strlit("fatal error");
    assert("error"@[0] == 'e');
    assert("warning"@[0] == 'w');
    assert("fatal error"@[0] == 'f');
}

proof fn lemma_gcc_text_nested(p: LinePartsView, gap1: Seq<char>, gap2: Seq<char>)
    ensures
        gcc_text(p, gap1, gap2) == p.file + (seq![':'] + (p.line + (seq![':'] + (p.col + (seq![':']
            + (gap1 + (p.severity + (seq![':'] + (gap2 + p.message))))))))),
{
    assert(gcc_text(p, gap1, gap2) =~= p.file + (seq![':'] + (p.line + (seq![':'] + (p.col + (seq![
        ':',
    ] + (gap1 + (p.severity + (seq![':'] + (gap2 + p.message))))))))));
}

proof fn lemma_msvc_text_nested(
    p: LinePartsView,
    gap1: Seq<char>,
    gap2: Seq<char>,
    code: Seq<char>,
    gap3: Seq<char>,
)
    ensures
        msvc_text(p, gap1, gap2, code, gap3) == p.file + (seq!['('] + (p.line + (seq![','] + (p.col
            + (seq![')'] + (seq![':'] + (gap1 + (p.severity + (gap2 + (code + (seq![':'] + (gap3
            + p.message)))))))))))),
{
    assert(msvc_text(p, gap1, gap2, code, gap3) =~= p.file + (seq!['('] + (p.line + (seq![','] + (
    p.col + (seq![')'] + (seq![':'] + (gap1 + (p.severity + (gap2 + (code + (seq![':'] + (gap3
        + p.message)))))))))))));
}

proof fn lemma_same_prefix(a: Seq<char>, x: Seq<char>, y: Seq<char>)
    requires
        a + x == a + y,
    ensures
        x == y,
{
    assert((a + x).skip(a.len() as int) =~= x);
    assert((a + y).skip(a.len() as int) =~= y);
}

/// A file behind a drive letter, taken apart.
proof fn lemma_drive(file: Seq<char>, rest: Seq<char>)
    requires
        has_drive(file),
    ensures
        file + rest == seq![file[0]] + (seq![':'] + (file.skip(2) + rest)),
{
    assert(file + rest =~= seq![file[0]] + (seq![':'] + (file.skip(2) + rest)));
}

/// The third colon behind a file is followed by white space, so a line is not
/// read both with and without a drive letter.
proof fn lemma_drive_or_not(
    p: LinePartsView,
    p3: Seq<char>,
    q: LinePartsView,
    q3: Seq<char>,
)
    requires
        has_drive(p.file) && is_file(p.file.skip(2), ':', ':'),
        is_file(q.file, ':', ':'),
        is_digits(p.line),
        is_digits(p.col),
        is_digits(q.line),
        is_digits(q.col),
        q3.len() > 0 && white_space(q3[0]),
    ensures
        p.file + (seq![':'] + (p.line + (seq![':'] + (p.col + p3)))) != q.file + (seq![':'] + (
        q.line + (seq![':'] + (q.col + (seq![':'] + q3))))),
{
    let colon = seq![':'];
    let p1 = p.line + (colon + (p.col + p3));
    let q2 = q.col + (colon + q3);
    let q1 = q.line + (colon + q2);
    lemma_drive(p.file, colon + p1);
    lemma_digits_hold_no_separator(p.line);
    lemma_digits_hold_no_separator(q.line);
    lemma_digits_hold_no_separator(q.col);
    lemma_decimal(p.col[0]);
    if p.file + (colon + p1) == q.file + (colon + q1) {
        lemma_split(seq![p.file[0]], p.file.skip(2) + (colon + p1), q.file, q1, ':');
        lemma_split(p.file.skip(2), p1, q.line, q2, ':');
        lemma_split(p.line, p.col + p3, q.col, q3, ':');
        assert((p.col + p3)[0] == p.col[0]);
    }
}

/// Files are split off at their end in one way only, where two numbers and
/// white space follow.
proof fn lemma_split_file(
    p: LinePartsView,
    p3: Seq<char>,
    q: LinePartsView,
    q3: Seq<char>,
)
    requires
        is_gcc_file(p.file),
        is_gcc_file(q.file),
        is_digits(p.line),
        is_digits(p.col),
        is_digits(q.line),
        is_digits(q.col),
        p3.len() > 0 && white_space(p3[0]),
        q3.len() > 0 && white_space(q3[0]),
        p.file + (seq![':'] + (p.line + (seq![':'] + (p.col + (seq![':'] + p3))))) == q.file + (
        seq![':'] + (q.line + (seq![':'] + (q.col + (seq![':'] + q3))))),
    ensures
        p.file == q.file,
        p.line + (seq![':'] + (p.col + (seq![':'] + p3))) == q.line + (seq![':'] + (q.col + (seq![
            ':',
        ] + q3))),
{
    let colon = seq![':'];
    let p1 = p.line + (colon + (p.col + (colon + p3)));
    let q1 = q.line + (colon + (q.col + (colon + q3)));
    if is_file(p.file, ':', ':') {
        if is_file(q.file, ':', ':') {
            lemma_split(p.file, p1, q.file, q1, ':');
        } else {
            lemma_drive_or_not(q, colon + q3, p, p3);
        }
    } else if is_file(q.file, ':', ':') {
        lemma_drive_or_not(p, colon + p3, q, q3);
    } else {
        let a = p.file.skip(2);
        let b = q.file.skip(2);
        lemma_drive(p.file, colon + p1);
        lemma_drive(q.file, colon + q1);
        lemma_split(seq![p.file[0]], a + (colon + p1), seq![q.file[0]], b + (colon + q1), ':');
        lemma_split(a, p1, b, q1, ':');
        lemma_drive(p.file, Seq::empty());
        lemma_drive(q.file, Seq::empty());
        assert(p.file + Seq::<char>::empty() =~= p.file);
        assert(q.file + Seq::<char>::empty() =~= q.file);
    }
}

proof fn lemma_digits_hold_no_separator(s: Seq<char>)
    requires
        is_digits(s),
    ensures
        forall|i: int|
            0 <= i < s.len() ==> #[trigger] s[i] != ':' && s[i] != '(' && s[i] != ')' && s[i] != ',',
{
    assert forall|i: int| 0 <= i < s.len() implies #[trigger] s[i] != ':' && s[i] != '(' && s[i]
        != ')' && s[i] != ',' by {
        lemma_decimal(s[i]);
    }
}

/// A line has the form of GCC with one set of fields only.
pub proof fn law_gcc_fields_are_unique(s: Seq<char>, p: LinePartsView, q: LinePartsView)
    requires
        gcc_form(s, p),
        gcc_form(s, q),
    ensures
        p == q,
{
    let (g1, g2) = choose|g1: Seq<char>, g2: Seq<char>|
        is_gap(g1) && is_gap(g2) && s == #[trigger] gcc_text(p, g1, g2);
    let (h1, h2) = choose|h1: Seq<char>, h2: Seq<char>|
        is_gap(h1) && is_gap(h2) && s == #[trigger] gcc_text(q, h1, h2);
    lemma_gcc_text_nested(p, g1, g2);
    lemma_gcc_text_nested(q, h1, h2);
    lemma_severity_word(p.severity);
    lemma_severity_word(q.severity);
    lemma_digits_hold_no_separator(p.line);
    lemma_digits_hold_no_separator(q.line);
    lemma_digits_hold_no_separator(p.col);
    lemma_digits_hold_no_separator(q.col);
    let colon = seq![':'];
    let p4 = g2 + p.message;
    let p3 = p.severity + (colon + p4);
    let p2 = p.col + (colon + (g1 + p3));
    let q4 = h2 + q.message;
    let q3 = q.severity + (colon + q4);
    let q2 = q.col + (colon + (h1 + q3));
    assert((g1 + p3)[0] == g1[0]);
    assert((h1 + q3)[0] == h1[0]);
    lemma_split_file(p, g1 + p3, q, h1 + q3);
    lemma_split(p.line, p2, q.line, q2, ':');
    lemma_split(p.col, g1 + p3, q.col, h1 + q3, ':');
    assert(p3[0] == p.severity[0]);
    assert(q3[0] == q.severity[0]);
    lemma_split_gap(g1, p3, h1, q3);
    lemma_split(p.severity, p4, q.severity, q4, ':');
    lemma_split_gap(g2, p.message, h2, q.message);
}

/// A line has the form of MSVC with one set of fields only.
pub proof fn law_msvc_fields_are_unique(s: Seq<char>, p: LinePartsView, q: LinePartsView)
    requires
        msvc_form(s, p, false),
        msvc_form(s, q, false),
    ensures
        p == q,
{
    let (g1, g2, gc, g3) = choose|g1: Seq<char>, g2: Seq<char>, gc: Seq<char>, g3: Seq<char>|
        is_gap(g1) && is_gap(g2) && is_word(gc, false) && is_gap(g3)
            && s == #[trigger] msvc_text(p, g1, g2, gc, g3);
    let (h1, h2, hc, h3) = choose|h1: Seq<char>, h2: Seq<char>, hc: Seq<char>, h3: Seq<char>|
        is_gap(h1) && is_gap(h2) && is_word(hc, false) && is_gap(h3)
            && s == #[trigger] msvc_text(q, h1, h2, hc, h3);
    lemma_msvc_text_nested(p, g1, g2, gc, g3);
    lemma_msvc_text_nested(q, h1, h2, hc, h3);
    lemma_severity_word(p.severity);
    lemma_severity_word(q.severity);
    lemma_digits_hold_no_separator(p.line);
    lemma_digits_hold_no_separator(q.line);
    lemma_digits_hold_no_separator(p.col);
    lemma_digits_hold_no_separator(q.col);
    let colon = seq![':'];
    let p5 = g3 + p.message;
    let p4 = gc + (colon + p5);
    let p3 = p.severity + (g2 + p4);
    let p2 = p.col + (seq![')'] + (colon + (g1 + p3)));
    let p1 = p.line + (seq![','] + p2);
    let q5 = h3 + q.message;
    let q4 = hc + (colon + q5);
    let q3 = q.severity + (h2 + q4);
    let q2 = q.col + (seq![')'] + (colon + (h1 + q3)));
    let q1 = q.line + (seq![','] + q2);
    lemma_split(p.file, p1, q.file, q1, '(');
    lemma_split(p.line, p2, q.line, q2, ',');
    lemma_split(p.col, colon + (g1 + p3), q.col, colon + (h1 + q3), ')');
    lemma_same_prefix(colon, g1 + p3, h1 + q3);
    assert(p3[0] == p.severity[0]);
    assert(q3[0] == q.severity[0]);
    lemma_split_gap(g1, p3, h1, q3);
    lemma_msvc_severity(p.severity, q.severity);
    lemma_same_prefix(p.severity, g2 + p4, h2 + q4);
    assert(p4[0] == gc[0]);
    assert(q4[0] == hc[0]);
    lemma_split_gap(g2, p4, h2, q4);
    lemma_split(gc, p5, hc, q5, ':');
    lemma_split_gap(g3, p.message, h3, q.message);
}

/// Every line `file:line:col: severity: message` has the form of GCC, with these
/// fields, whatever the lengths of its parts: the file is any text without a
/// colon or a line break, behind a drive letter or not; the gaps are any white
/// space; the message is any text on one line.
pub proof fn law_gcc_lines_have_the_form(
    drive: Seq<char>,
    path: Seq<char>,
    line: Seq<char>,
    col: Seq<char>,
    gap1: Seq<char>,
    word: Seq<char>,
    gap2: Seq<char>,
    message: Seq<char>,
)
    requires
        drive.len() == 0 || (drive.len() == 2 && ('a' <= drive[0] <= 'z' || 'A' <= drive[0] <= 'Z')
            && drive[1] == ':'),
        path.len() > 0,
        forall|i: int|
            0 <= i < path.len() ==> #[trigger] path[i] != ':' && path[i] != '\n' && path[i] != '\r',
        line.len() > 0 && forall|i: int| 0 <= i < line.len() ==> '0' <= #[trigger] line[i] <= '9',
        col.len() > 0 && forall|i: int| 0 <= i < col.len() ==> '0' <= #[trigger] col[i] <= '9',
        gap1.len() > 0 && forall|i: int| 0 <= i < gap1.len() ==> white_space(#[trigger] gap1[i]),
        gap2.len() > 0 && forall|i: int| 0 <= i < gap2.len() ==> white_space(#[trigger] gap2[i]),
        word == "error"@ || word == "warning"@ || word == "note"@ || word == "fatal error"@,
        message.len() > 0 && !white_space(message[0]),
        forall|i: int| 0 <= i < message.len() ==> #[trigger] message[i] != '\n',
    ensures
        gcc_form(
            drive + path + seq![':'] + line + seq![':'] + col + seq![':'] + gap1 + word + seq![':']
                + gap2 + message,
            LinePartsView { file: drive + path, line, col, severity: word, message },
        ),
{
    let p = LinePartsView { file: drive + path, line, col, severity: word, message };
    if drive.len() == 0 {
        assert(p.file =~= path);
    } else {
        assert(p.file.skip(2) =~= path);
        assert(p.file[0] == drive[0] && p.file[1] == ':');
    }
    assert(is_gap(gap1) && is_gap(gap2));
    assert(drive + path + seq![':'] + line + seq![':'] + col + seq![':'] + gap1 + word + seq![':']
        + gap2 + message == gcc_text(p, gap1, gap2));
}

/// A line in the form of GCC is its fields with colons and white space between
/// them, and nothing else; the white space is handed back.
pub proof fn law_gcc_fields_make_up_line(s: Seq<char>, p: LinePartsView) -> (gaps: (
    Seq<char>,
    Seq<char>,
))
    requires
        gcc_form(s, p),
    ensures
        s == p.file + seq![':'] + p.line + seq![':'] + p.col + seq![':'] + gaps.0 + p.severity
            + seq![':'] + gaps.1 + p.message,
        gaps.0.len() > 0 && forall|i: int|
            0 <= i < gaps.0.len() ==> white_space(#[trigger] gaps.0[i]),
        gaps.1.len() > 0 && forall|i: int|
            0 <= i < gaps.1.len() ==> white_space(#[trigger] gaps.1[i]),
        p.severity == "error"@ || p.severity == "warning"@ || p.severity == "note"@ || p.severity
            == "fatal error"@,
        p.file.len() > 0,
        forall|i: int|
            0 <= i < p.file.len() ==> #[trigger] p.file[i] != '\n' && p.file[i] != '\r' && (
            p.file[i] != ':' || i == 1),
        p.line.len() > 0 && forall|i: int|
            0 <= i < p.line.len() ==> '0' <= #[trigger] p.line[i] <= '9' || p.line[i] > '\u{7f}',
        p.col.len() > 0 && forall|i: int|
            0 <= i < p.col.len() ==> '0' <= #[trigger] p.col[i] <= '9' || p.col[i] > '\u{7f}',
        p.message.len() > 0,
        forall|i: int| 0 <= i < p.message.len() ==> #[trigger] p.message[i] != '\n',
{
    let (gap1, gap2) = choose|gap1: Seq<char>, gap2: Seq<char>|
        is_gap(gap1) && is_gap(gap2) && s == #[trigger] gcc_text(p, gap1, gap2);
    lemma_digits_by_value(p.line);
    lemma_digits_by_value(p.col);
    assert forall|i: int| 0 <= i < p.file.len() implies #[trigger] p.file[i] != '\n' && p.file[i]
        != '\r' && (p.file[i] != ':' || i == 1) by {
        if !is_file(p.file, ':', ':') {
            assert(is_letter(p.file[0]) && p.file[1] == ':');
            if i >= 2 {
                assert(p.file.skip(2)[i - 2] == p.file[i]);
            }
        }
    }
    (gap1, gap2)
}

proof fn lemma_digits_by_value(s: Seq<char>)
    requires
        is_digits(s),
    ensures
        forall|i: int|
            0 <= i < s.len() ==> '0' <= #[trigger] s[i] <= '9' || s[i] > '\u{7f}',
{
    assert forall|i: int| 0 <= i < s.len() implies '0' <= #[trigger] s[i] <= '9' || s[i]
        > '\u{7f}' by {
        assert(is_decimal(s[i]));
        if is_foreign_digit(s[i]) {
            lemma_foreign_digit(s[i]);
        }
    }
}

/// Every line `file(line,col): severity code: message` has the form of MSVC,
/// with these fields, whatever the lengths of its parts.
pub proof fn law_msvc_lines_have_the_form(
    file: Seq<char>,
    line: Seq<char>,
    col: Seq<char>,
    gap1: Seq<char>,
    word: Seq<char>,
    gap2: Seq<char>,
    code: Seq<char>,
    gap3: Seq<char>,
    message: Seq<char>,
)
    requires
        file.len() > 0,
        forall|i: int|
            0 <= i < file.len() ==> #[trigger] file[i] != '(' && file[i] != ')' && file[i] != '\n'
                && file[i] != '\r',
        line.len() > 0 && forall|i: int| 0 <= i < line.len() ==> '0' <= #[trigger] line[i] <= '9',
        col.len() > 0 && forall|i: int| 0 <= i < col.len() ==> '0' <= #[trigger] col[i] <= '9',
        gap1.len() > 0 && forall|i: int| 0 <= i < gap1.len() ==> white_space(#[trigger] gap1[i]),
        gap2.len() > 0 && forall|i: int| 0 <= i < gap2.len() ==> white_space(#[trigger] gap2[i]),
        gap3.len() > 0 && forall|i: int| 0 <= i < gap3.len() ==> white_space(#[trigger] gap3[i]),
        word == "error"@ || word == "warning"@ || word == "fatal error"@,
        code.len() > 0 && forall|i: int|
            0 <= i < code.len() ==> '0' <= #[trigger] code[i] <= '9' || 'a' <= code[i] <= 'z' || 'A'
                <= code[i] <= 'Z' || code[i] == '_',
        message.len() > 0 && !white_space(message[0]),
        forall|i: int| 0 <= i < message.len() ==> #[trigger] message[i] != '\n',
    ensures
        msvc_form(
            file + seq!['('] + line + seq![','] + col + seq![')', ':'] + gap1 + word + gap2 + code
                + seq![':'] + gap3 + message,
            LinePartsView { file, line, col, severity: word, message },
            true,
        ),
{
    let p = LinePartsView { file, line, col, severity: word, message };
    assert(is_gap(gap1) && is_gap(gap2) && is_gap(gap3) && is_word(code, true));
    assert(file + seq!['('] + line + seq![','] + col + seq![')', ':'] + gap1 + word + gap2 + code
        + seq![':'] + gap3 + message == msvc_text(p, gap1, gap2, code, gap3));
}

/// A line in the form of MSVC is its fields and a code with brackets, a comma,
/// colons and white space between them; what is no field is handed back.
pub proof fn law_msvc_fields_make_up_line(s: Seq<char>, p: LinePartsView, ascii: bool) -> (rest: (
    Seq<char>,
    Seq<char>,
    Seq<char>,
    Seq<char>,
))
    requires
        msvc_form(s, p, ascii),
    ensures
        s == p.file + seq!['('] + p.line + seq![','] + p.col + seq![')', ':'] + rest.0 + p.severity
            + rest.1 + rest.2 + seq![':'] + rest.3 + p.message,
        rest.0.len() > 0 && forall|i: int|
            0 <= i < rest.0.len() ==> white_space(#[trigger] rest.0[i]),
        rest.1.len() > 0 && forall|i: int|
            0 <= i < rest.1.len() ==> white_space(#[trigger] rest.1[i]),
        rest.2.len() > 0 && forall|i: int|
            0 <= i < rest.2.len() ==> #[trigger] rest.2[i] != ':' && !white_space(rest.2[i]),
        rest.3.len() > 0 && forall|i: int|
            0 <= i < rest.3.len() ==> white_space(#[trigger] rest.3[i]),
        p.severity == "error"@ || p.severity == "warning"@ || p.severity == "fatal error"@,
        p.file.len() > 0,
        forall|i: int|
            0 <= i < p.file.len() ==> #[trigger] p.file[i] != '\n' && p.file[i] != '\r' && p.file[i]
                != '(' && p.file[i] != ')',
        p.line.len() > 0 && forall|i: int|
            0 <= i < p.line.len() ==> '0' <= #[trigger] p.line[i] <= '9' || p.line[i] > '\u{7f}',
        p.col.len() > 0 && forall|i: int|
            0 <= i < p.col.len() ==> '0' <= #[trigger] p.col[i] <= '9' || p.col[i] > '\u{7f}',
        p.message.len() > 0,
        forall|i: int| 0 <= i < p.message.len() ==> #[trigger] p.message[i] != '\n',
{
    let (gap1, gap2, code, gap3) = choose|
        gap1: Seq<char>,
        gap2: Seq<char>,
        code: Seq<char>,
        gap3: Seq<char>,
    |
        is_gap(gap1) && is_gap(gap2) && is_word(code, ascii) && is_gap(gap3)
            && s == #[trigger] msvc_text(p, gap1, gap2, code, gap3);
    lemma_digits_by_value(p.line);
    lemma_digits_by_value(p.col);
    (gap1, gap2, code, gap3)
}

/// The view of a line's fields holds all of them.
pub proof fn law_parts_view_is_whole(parts: LineParts)
    ensures
        parts@.file == parts.file@,
        parts@.line == parts.line@,
        parts@.col == parts.col@,
        parts@.severity == parts.severity@,
        parts@.message == parts.message@,
{
}

/// The view of fields that may be missing tells whether they are.
pub proof fn law_parts_view_of_option(parts: LineParts)
    ensures
        parts_view(None) is None,
        parts_view(Some(parts)) == Some(parts@),
{
}

} // verus!
