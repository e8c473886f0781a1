use cpphxbuilder::diagnostic::{Diagnostic, Severity};
use cpphxbuilder::grammar::LineParts;
use cpphxbuilder::parser::Parser;

fn check(raw: &str, file: &str, line: u32, col: u32, severity: Severity, message: &str) {
    let parser = Parser::new();
    let d = parser.parse_line(raw).expect(raw);
    assert_eq!(d.file, file);
    assert_eq!(d.line, line);
    assert_eq!(d.col, col);
    assert_eq!(d.severity, severity);
    assert_eq!(d.message, message);
    assert!(d.context.is_empty());
}

fn refuses(raw: &str) {
    assert!(Parser::new().parse_line(raw).is_none(), "{:?}", raw);
}

fn parts(line: &str, col: &str, severity: &str, message: &str) -> LineParts {
    LineParts {
        file: "a.cpp".to_string(),
        line: line.to_string(),
        col: col.to_string(),
        severity: severity.to_string(),
        message: message.to_string(),
    }
}

#[test]
fn gcc_lines_are_read() {
    check("src/main.cpp:10:5: error: expected ';'", "src/main.cpp", 10, 5, Severity::Error, "expected ';'");
    check("a.h:1:2: warning: unused: x", "a.h", 1, 2, Severity::Warning, "unused: x");
    check("a.h:1:2: note: here", "a.h", 1, 2, Severity::Note, "here");
    check("a.h:1:2: fatal error: no such file", "a.h", 1, 2, Severity::Error, "no such file");
}

#[test]
fn files_may_start_with_a_drive_letter() {
    check(r"C:\src\a.cpp:3:5: error: boom", r"C:\src\a.cpp", 3, 5, Severity::Error, "boom");
    check("z:/a.h:1:2: note: here", "z:/a.h", 1, 2, Severity::Note, "here");
    check("C:12:3:4: warning: m", "C:12", 3, 4, Severity::Warning, "m");
    check("C:1:2: warning: m", "C", 1, 2, Severity::Warning, "m");
    refuses(r"CD:\a.c:1:2: error: m");
    refuses(r"1:\a.c:1:2: error: m");
    refuses("C::1:2: error: m");
    refuses(r"C:\a:b.c:1:2: error: m");
}

#[test]
fn gaps_may_be_any_white_space() {
    check("a.c:1:2:\t  error:\u{a0} \tm n", "a.c", 1, 2, Severity::Error, "m n");
    check("a b.c:01:002: error: m", "a b.c", 1, 2, Severity::Error, "m");
}

#[test]
fn msvc_lines_are_read() {
    check("main.cpp(10,5): error C2065: 'x': undeclared", "main.cpp", 10, 5, Severity::Error, "'x': undeclared");
    check(r"C:\src\a.cpp(7,1): warning C4996: old", r"C:\src\a.cpp", 7, 1, Severity::Warning, "old");
    check("a.cpp(1,2):  error \t_x9:   m", "a.cpp", 1, 2, Severity::Error, "m");
    check(
        "a.cpp(1,10): fatal error C1083: Cannot open include file",
        "a.cpp",
        1,
        10,
        Severity::Error,
        "Cannot open include file",
    );
    check("D:é.cpp(7,1): error C2: m", "D:é.cpp", 7, 1, Severity::Error, "m");
    check("x:é:é: error: y(7,1): error C2: m", "x:é:é: error: y", 7, 1, Severity::Error, "m");
}

#[test]
fn the_form_of_gcc_comes_first() {
    check("x:1:1: error: y(2,3): error C1: m", "x", 1, 1, Severity::Error, "y(2,3): error C1: m");
    check("x:1:1: error: (2,3): error C1: m", "x", 1, 1, Severity::Error, "(2,3): error C1: m");
}

#[test]
fn other_lines_are_not_diagnostics() {
    refuses("");
    refuses("ninja: build stopped");
    refuses("a.c:1: error: no column");
    refuses("a.c:1:2:error: no gap");
    refuses("a.c:1:2: error:no gap");
    refuses("a.c:1:2: error: ");
    refuses("a.c:1:2: remark: other word");
    refuses("a.c:x:2: error: m");
    refuses(":1:2: error: m");
    refuses("a\nb.c:1:2: error: m");
    refuses("a.c:1:2: error: m\nn");
    refuses("a.c(1,2): note C1: m");
    refuses("a.c(1,2): fatal  error C1: m");
    refuses("a.c(1,2): error : m");
    refuses("a.c(1,2): error C-1: m");
    refuses("a.c(1): error C1: m");
    refuses("(1,2): error C1: m");
}

#[test]
fn escape_sequences_are_stripped() {
    let parser = Parser::new();
    assert_eq!(parser.strip_ansi("plain"), "plain");
    assert_eq!(parser.strip_ansi("\u{1b}[1;31merror\u{1b}[0m"), "error");
    assert_eq!(parser.strip_ansi("a\u{1b}[Kb\u{1b}[2Gc\u{1b}[Hd\u{1b}[Fe"), "abcde");
    assert_eq!(parser.strip_ansi("\u{1b}[12"), "\u{1b}[12");
    assert_eq!(parser.strip_ansi("\u{1b}[1x"), "\u{1b}[1x");
    assert_eq!(parser.strip_ansi("\u{1b}\u{1b}[m[m"), "\u{1b}[m");
    assert_eq!(parser.strip_ansi("\u{1b}[\u{1b}[mm"), "\u{1b}[m");
}

#[test]
fn coloured_lines_are_read() {
    check(
        "\u{1b}[1ma.c:3:4: \u{1b}[0m\u{1b}[0;1;31merror: \u{1b}[0m\u{1b}[1mbad\u{1b}[0m",
        "a.c",
        3,
        4,
        Severity::Error,
        "bad",
    );
}

#[test]
fn white_space_at_the_end_is_ignored() {
    check("a.c:1:2: error: m \t\r\n", "a.c", 1, 2, Severity::Error, "m");
    check("a.c:1:2: error: m\u{3000}\u{1b}[0m ", "a.c", 1, 2, Severity::Error, "m");
}

#[test]
fn numbers_that_do_not_fit_count_as_one() {
    check("a.c:4294967295:4294967296: error: m", "a.c", 4294967295, 1, Severity::Error, "m");
    check("a.c:99999999999999999999:0: error: m", "a.c", 1, 0, Severity::Error, "m");
    check("a.c:\u{661}:2: error: m", "a.c", 1, 2, Severity::Error, "m");
}

#[test]
fn diagnostics_are_made_from_fields() {
    let d = Diagnostic::from_parts(parts("12", "34", "warning", "  x y \n"));
    assert_eq!(d.file, "a.cpp");
    assert_eq!((d.line, d.col), (12, 34));
    assert_eq!(d.severity, Severity::Warning);
    assert_eq!(d.message, "x y");
    assert!(d.context.is_empty());
    let d = Diagnostic::from_parts(parts("+7", "-7", "hint", ""));
    assert_eq!((d.line, d.col), (7, 1));
    assert_eq!(d.severity, Severity::Other);
    assert_eq!(d.message, "");
    let d = Diagnostic::from_parts(parts("", "+", "fatal error", "x"));
    assert_eq!((d.line, d.col), (1, 1));
    assert_eq!(d.severity, Severity::Error);
    assert_eq!(Diagnostic::from_parts(parts("1", "1", "note", "x")).severity, Severity::Note);
}

#[test]
fn white_space_is_that_of_unicode() {
    for code in 0u32..0x110000 {
        if let Some(c) = char::from_u32(code) {
            let white = matches!(
                code,
                9..=13 | 32 | 0x85 | 0xa0 | 0x1680 | 0x2000..=0x200a | 0x2028 | 0x2029 | 0x202f | 0x205f | 0x3000
            );
            assert_eq!(c.is_whitespace(), white);
            if white || code < 0x3100 {
                let text = format!("{}x{}", c, c);
                let d = Diagnostic::from_parts(parts("1", "1", "note", &text));
                assert_eq!(d.message == "x", white);
            }
        }
    }
}

#[test]
fn written_lines_read_back() {
    let parser = Parser::new();
    for (word, severity) in [
        ("error", Severity::Error),
        ("warning", Severity::Warning),
        ("note", Severity::Note),
        ("fatal error", Severity::Error),
    ] {
        for n in [0u32, 1, 9, 10, 99, 100, 4294967294, 4294967295] {
            let d = parser.parse_line(&format!("d/f.c:{}:{}: {}: a b", n, n / 2, word)).unwrap();
            assert_eq!((d.line, d.col, d.severity), (n, n / 2, severity));
            assert_eq!(d.location(), format!("d/f.c:{}:{}", n, n / 2));
            if severity != Severity::Note {
                let d = parser.parse_line(&format!("d/f.c({},{}): {} C1: a b", n, n / 2, word)).unwrap();
                assert_eq!((d.line, d.col, d.severity), (n, n / 2, severity));
                assert_eq!(d.message, "a b");
            }
        }
    }
}
