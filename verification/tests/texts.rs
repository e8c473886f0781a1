use cpphxbuilder::diagnostic::{Color, Diagnostic, Severity};
use cpphxbuilder::text::{
    chars_of, pad_right, parse_u32, same_text, to_decimal, without_line_break,
};

fn diagnostic() -> Diagnostic {
    Diagnostic {
        file: "src/ä.cpp".to_string(),
        line: 10,
        col: 205,
        severity: Severity::Note,
        message: "m".to_string(),
        context: vec!["a".to_string(), "b".to_string()],
    }
}

#[test]
fn numerals_are_read() {
    assert_eq!(parse_u32("0"), Some(0));
    assert_eq!(parse_u32("007"), Some(7));
    assert_eq!(parse_u32("+12"), Some(12));
    assert_eq!(parse_u32("4294967295"), Some(u32::MAX));
    for s in ["", "+", "++1", "-1", "4294967296", "99999999999", "1 ", "x", "1x", "\u{661}"] {
        assert_eq!(parse_u32(s), None, "{:?}", s);
        assert_eq!(s.parse::<u32>().ok(), None);
    }
}

#[test]
fn decimals_read_back() {
    for n in [0u32, 1, 9, 10, 11, 99, 100, 12345, 4294967295] {
        assert_eq!(to_decimal(n as u64), n.to_string());
        assert_eq!(parse_u32(&to_decimal(n as u64)), Some(n));
    }
    assert_eq!(to_decimal(u64::MAX), "18446744073709551615");
}

#[test]
fn fields_are_padded_by_characters() {
    assert_eq!(pad_right("ab", 5), "ab   ");
    assert_eq!(pad_right("…é", 4), "…é  ");
    assert_eq!(pad_right("abcdef", 4), "abcdef");
    assert_eq!(pad_right("", 0), "");
    assert_eq!(pad_right("…é", 4), format!("{:<4}", "…é"));
}

#[test]
fn texts_are_compared_by_characters() {
    assert_eq!(chars_of("aé…"), vec!['a', 'é', '…']);
    assert!(same_text("é", "é"));
    assert!(same_text("", ""));
    assert!(!same_text("a", "b"));
    assert!(!same_text("a", "ab"));
}

#[test]
fn severities_have_labels_and_colours() {
    assert_eq!(Severity::Error.label(), "ERR");
    assert_eq!(Severity::Warning.label(), "WRN");
    assert_eq!(Severity::Note.label(), "NTE");
    assert_eq!(Severity::Other.label(), "   ");
    assert_eq!(Severity::Error.color(), Color::Red);
    assert_eq!(Severity::Warning.color(), Color::Yellow);
    assert_eq!(Severity::Note.color(), Color::Cyan);
    assert_eq!(Severity::Other.color(), Color::Gray);
}

#[test]
fn locations_are_for_the_editor() {
    assert_eq!(diagnostic().location(), "src/ä.cpp:10:205");
}

#[test]
fn copies_are_whole() {
    let d = diagnostic().clone();
    assert_eq!(d.file, "src/ä.cpp");
    assert_eq!((d.line, d.col, d.severity), (10, 205, Severity::Note));
    assert_eq!(d.message, "m");
    assert_eq!(d.context, vec!["a", "b"]);
}

#[test]
fn line_breaks_are_taken_off() {
    let check = |bytes: &[u8], line: &[u8]| assert_eq!(without_line_break(&bytes.to_vec()), line);
    check(b"a\n", b"a");
    check(b"a\r\n", b"a");
    check(b"a\r", b"a\r");
    check(b"a\n\n", b"a\n");
    check(b"a\r\r\n", b"a\r");
    check(b"a", b"a");
    check(b"\r\n", b"");
    check(b"\n", b"");
    check(b"", b"");
    check(b"\xff\n", b"\xff");
}

#[test]
fn locations_differ_where_places_do() {
    let at = |file: &str, line, col| {
        Diagnostic { file: file.to_string(), line, col, ..diagnostic() }.location()
    };
    assert_eq!(at("a:1", 2, 3), "a:1:2:3");
    assert_ne!(at("a:1", 2, 3), at("a", 1, 2));
    assert_ne!(at("a", 12, 3), at("a", 1, 23));
    assert_ne!(at("a1", 2, 3), at("a", 12, 3));
}
