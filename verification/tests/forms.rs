use cpphxbuilder::parser::Parser;

type Fields = (String, String, String, String, String);

fn is_white(c: char) -> bool {
    matches!(c as u32, 9..=13 | 32 | 0x85 | 0xa0)
}

/// The text behind a gap, if `s` starts with one.
fn behind_gap(s: &str) -> Option<&str> {
    let rest = s.trim_start_matches(is_white);
    if rest.len() == s.len() {
        None
    } else {
        Some(rest)
    }
}

fn digits(s: &str) -> bool {
    !s.is_empty() && s.chars().all(|c| c.is_ascii_digit())
}

/// The message behind the last gap of a line that does not end in white space.
fn message(s: &str) -> Option<&str> {
    let rest = behind_gap(s)?;
    if rest.is_empty() || rest.contains('\n') {
        None
    } else {
        Some(rest)
    }
}

fn file(s: &str, barred: &[char]) -> bool {
    !s.is_empty() && !s.contains(barred) && !s.contains(['\n', '\r'])
}

/// The fields of a line whose file has its first `drive` bytes in a drive letter
/// and a colon.
fn gcc_behind(line: &str, drive: usize) -> Option<Fields> {
    let (f, rest) = line[drive..].split_once(':')?;
    let (l, rest) = rest.split_once(':')?;
    let (c, rest) = rest.split_once(':')?;
    let (s, rest) = behind_gap(rest)?.split_once(':')?;
    let m = message(rest)?;
    if file(f, &[':']) && digits(l) && digits(c) && ["error", "warning", "note", "fatal error"].contains(&s) {
        let f = &line[..drive + f.len()];
        Some((f.to_string(), l.to_string(), c.to_string(), s.to_string(), m.to_string()))
    } else {
        None
    }
}

fn gcc(line: &str) -> Option<Fields> {
    let bytes = line.as_bytes();
    let has_drive = bytes.len() > 2 && bytes[0].is_ascii_alphabetic() && bytes[1] == b':';
    let behind_drive = if has_drive { gcc_behind(line, 2) } else { None };
    let plain = gcc_behind(line, 0);
    assert!(behind_drive.is_none() || plain.is_none(), "{:?}", line);
    behind_drive.or(plain)
}

fn msvc(line: &str) -> Option<Fields> {
    let (f, rest) = line.split_once('(')?;
    let (l, rest) = rest.split_once(',')?;
    let (c, rest) = rest.split_once(')')?;
    let rest = behind_gap(rest.strip_prefix(':')?)?;
    let s = ["error", "warning", "fatal error"].into_iter().find(|s| rest.starts_with(s))?;
    let (code, rest) = behind_gap(&rest[s.len()..])?.split_once(':')?;
    let m = message(rest)?;
    let word = !code.is_empty() && code.chars().all(|c| c.is_ascii_alphanumeric() || c == '_');
    if file(f, &['(', ')']) && digits(l) && digits(c) && word {
        Some((f.to_string(), l.to_string(), c.to_string(), s.to_string(), m.to_string()))
    } else {
        None
    }
}

/// Holds the parser to the forms on one line.
fn compare(parser: &Parser, line: &str) {
    let clean = line.trim_end();
    let expected = gcc(clean).or_else(|| msvc(clean));
    let found = parser.parse_line(line);
    match (expected, found) {
        (None, None) => {}
        (Some((f, l, c, _, m)), Some(d)) => {
            assert_eq!(d.file, f, "{:?}", line);
            assert_eq!(d.line, l.parse().unwrap_or(1), "{:?}", line);
            assert_eq!(d.col, c.parse().unwrap_or(1), "{:?}", line);
            assert_eq!(d.message, m, "{:?}", line);
        }
        (expected, found) => panic!("{:?}: {:?} but {:?}", line, expected, found),
    }
}

/// Replaces, drops and doubles one token after the other, two at a time.
fn vary(tokens: &[&str]) {
    let parser = Parser::new();
    let others = ["", "a", "1", ":", "(", ")", ",", " ", "\t", "\n", "\r", "\u{a0}", "error", "note", "_", "-"];
    for i in 0..tokens.len() {
        for x in others {
            for j in 0..tokens.len() {
                for y in ["", ":", "1", " ", "\n", "warning", "a"] {
                    let mut line = String::new();
                    for (k, t) in tokens.iter().enumerate() {
                        if k == i {
                            line.push_str(x);
                        } else if k == j {
                            line.push_str(t);
                            line.push_str(y);
                        } else {
                            line.push_str(t);
                        }
                    }
                    compare(&parser, &line);
                }
            }
        }
    }
}

#[test]
fn lines_like_those_of_gcc_have_one_reading() {
    vary(&["a", ".c", ":", "1", ":", "2", ":", " ", "error", ":", " ", "m", " ", "n"]);
    vary(&["f", ":", "10", ":", "20", ":", "  ", "fatal error", ":", "\t", "x"]);
    vary(&["C", ":", "\\a", ".c", ":", "1", ":", "2", ":", " ", "note", ":", " ", "m"]);
    vary(&["d", ":", "7", ":", "1", ":", "2", ":", " ", "error", ":", " ", "m"]);
}

#[test]
fn lines_like_those_of_msvc_have_one_reading() {
    vary(&["a", "(", "1", ",", "2", ")", ":", " ", "error", " ", "C1", ":", " ", "m", " ", "n"]);
    vary(&["C:", "\\a", "(", "1", ",", "2", ")", ":", " ", "warning", "\t", "x", ":", "  ", "m"]);
    vary(&["a", "(", "1", ",", "2", ")", ":", " ", "fatal", " ", "error", " ", "C1", ":", " ", "m"]);
    vary(&["x", ":", "1", ":", "1", ":", " ", "error", ":", " ", "y", "(", "2", ",", "3", "): error C1: m"]);
}

#[test]
fn digits_are_the_decimal_numbers_of_unicode() {
    let zeros: [u32; 76] = [
        0x30, 0x660, 0x6f0, 0x7c0, 0x966, 0x9e6, 0xa66, 0xae6,
        0xb66, 0xbe6, 0xc66, 0xce6, 0xd66, 0xde6, 0xe50, 0xed0,
        0xf20, 0x1040, 0x1090, 0x17e0, 0x1810, 0x1946, 0x19d0, 0x1a80,
        0x1a90, 0x1b50, 0x1bb0, 0x1c40, 0x1c50, 0xa620, 0xa8d0, 0xa900,
        0xa9d0, 0xa9f0, 0xaa50, 0xabf0, 0xff10, 0x104a0, 0x10d30, 0x10d40,
        0x11066, 0x110f0, 0x11136, 0x111d0, 0x112f0, 0x11450, 0x114d0, 0x11650,
        0x116c0, 0x116d0, 0x116da, 0x11730, 0x118e0, 0x11950, 0x11bf0, 0x11c50,
        0x11d50, 0x11da0, 0x11f50, 0x16130, 0x16a60, 0x16ac0, 0x16b50, 0x16d70,
        0x1ccf0, 0x1d7ce, 0x1d7d8, 0x1d7e2, 0x1d7ec, 0x1d7f6, 0x1e140, 0x1e2f0,
        0x1e4f0, 0x1e5f1, 0x1e950, 0x1fbf0,
    ];
    let parser = Parser::new();
    for code in (0..0x20000u32).chain((0x20000..0x110000).step_by(97)) {
        if let Some(c) = char::from_u32(code) {
            let digit = zeros.iter().any(|z| (*z..*z + 10).contains(&code));
            let d = parser.parse_line(&format!("a.c:7{}:5: error: m", c));
            assert_eq!(d.is_some(), digit, "{:x}", code);
            if let Some(d) = d {
                assert_eq!(d.line, if c.is_ascii() { 70 + code - 48 } else { 1 });
            }
        }
    }
}

/// `s` without escape sequences, by the definition.
fn stripped(s: &[char]) -> String {
    if s.is_empty() {
        return String::new();
    }
    if s.len() >= 3 && s[0] == '\u{1b}' && s[1] == '[' {
        let params = s[2..].iter().take_while(|c| c.is_ascii_digit() || **c == ';').count();
        if s.len() > 2 + params && "mGKHF".contains(s[2 + params]) {
            return stripped(&s[3 + params..]);
        }
    }
    format!("{}{}", s[0], stripped(&s[1..]))
}

#[test]
fn all_short_texts_are_stripped_by_the_definition() {
    let parser = Parser::new();
    let alphabet = ['\u{1b}', '[', '1', ';', 'm', 'x'];
    for len in 0..7u32 {
        for code in 0..6usize.pow(len) {
            let mut rest = code;
            let mut chars = Vec::new();
            for _ in 0..len {
                chars.push(alphabet[rest % 6]);
                rest /= 6;
            }
            let text: String = chars.iter().collect();
            assert_eq!(parser.strip_ansi(&text), stripped(&chars), "{:?}", text);
        }
    }
}
