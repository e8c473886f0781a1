use cpphxbuilder::diagnostic::{Diagnostic, Severity};
use cpphxbuilder::parser::Parser;
use cpphxbuilder::runner::{process_stream_lines, record_line, Build, Config, Stream};

fn reads(lines: &[&str]) -> Vec<Option<String>> {
    lines.iter().map(|l| Some(l.to_string())).collect()
}

fn feed(build: &mut Build, last: Option<usize>, lines: &[&str]) -> Option<usize> {
    let mut stream = Stream { last, ended: false };
    process_stream_lines(&Parser::new(), &reads(lines), &mut stream, build);
    assert!(!stream.ended);
    stream.last
}

fn note(message: &str) -> Diagnostic {
    Diagnostic {
        file: "a".to_string(),
        line: 1,
        col: 1,
        severity: Severity::Note,
        message: message.to_string(),
        context: Vec::new(),
    }
}

#[test]
fn output_is_kept_and_sorted() {
    let mut build = Build::new();
    let last = feed(
        &mut build,
        None,
        &[
            "[1/2] Building",
            "a.c:1:2: error: first",
            "  int x",
            "",
            "   \u{1b}[32m^\u{1b}[0m  ",
            "b.c(3,4): warning C1: second",
            "  y",
        ],
    );
    assert_eq!(last, Some(1));
    assert_eq!(build.raw_lines.len(), 7);
    assert_eq!(build.raw_lines[4], "   \u{1b}[32m^\u{1b}[0m  ");
    assert_eq!(build.diagnostics.len(), 2);
    assert_eq!(build.diagnostics[0].message, "first");
    assert_eq!(build.diagnostics[0].context, vec!["int x", "^"]);
    assert_eq!(build.diagnostics[1].message, "second");
    assert_eq!(build.diagnostics[1].context, vec!["y"]);
    assert!(!build.build_done && !build.build_success);
}

#[test]
fn context_is_limited_to_eight_lines() {
    let mut build = Build::new();
    let mut lines = vec![Some("a.c:1:2: error: m".to_string())];
    for i in 0..12 {
        lines.push(Some(format!("line {}", i)));
    }
    process_stream_lines(&Parser::new(), &lines, &mut Stream::new(), &mut build);
    let context: Vec<String> = (0..8).map(|i| format!("line {}", i)).collect();
    assert_eq!(build.diagnostics[0].context, context);
    assert_eq!(build.raw_lines.len(), 13);
}

#[test]
fn batches_of_any_size_give_the_same() {
    let lines = ["x", "a.c:1:1: note: n", "c1", "c2", "b.c:2:2: error: e", "", "c3"];
    let mut whole = Build::new();
    let end = feed(&mut whole, None, &lines);
    for cut in 0..=lines.len() {
        let mut split = Build::new();
        let last = feed(&mut split, None, &lines[..cut]);
        assert_eq!(feed(&mut split, last, &lines[cut..]), end);
        assert_eq!(split.raw_lines, whole.raw_lines);
        assert_eq!(split.diagnostics.len(), whole.diagnostics.len());
        for (a, b) in split.diagnostics.iter().zip(whole.diagnostics.iter()) {
            assert_eq!(a.location(), b.location());
            assert_eq!(a.context, b.context);
        }
    }
}

#[test]
fn two_streams_do_not_mix() {
    let mut build = Build::new();
    let out = feed(&mut build, None, &["a.c:1:1: error: out"]);
    let err = feed(&mut build, None, &["lost", "b.c:2:2: error: err"]);
    assert_eq!((out, err), (Some(0), Some(1)));
    assert_eq!(feed(&mut build, out, &["of out"]), Some(0));
    assert_eq!(feed(&mut build, err, &["of err"]), Some(1));
    assert_eq!(build.diagnostics[0].context, vec!["of out"]);
    assert_eq!(build.diagnostics[1].context, vec!["of err"]);
}

#[test]
fn lines_are_recorded_by_what_was_read() {
    let mut diagnostics = Vec::new();
    assert_eq!(record_line(&mut diagnostics, None, None, "no owner"), None);
    assert!(diagnostics.is_empty());
    let last = record_line(&mut diagnostics, None, Some(note("m")), "ignored");
    assert_eq!(last, Some(0));
    assert_eq!(record_line(&mut diagnostics, last, None, ""), Some(0));
    assert_eq!(record_line(&mut diagnostics, last, None, "text"), Some(0));
    assert_eq!(record_line(&mut diagnostics, Some(5), None, "out of range"), Some(5));
    assert_eq!(diagnostics.len(), 1);
    assert_eq!(diagnostics[0].message, "m");
    assert_eq!(diagnostics[0].context, vec!["text"]);
}

#[test]
fn builds_end() {
    let mut build = Build::new();
    build.finished(true);
    assert!(build.build_done && build.build_success);
    let mut build = Build::new();
    build.finished(false);
    assert!(build.build_done && !build.build_success);
    let mut build = Build::new();
    build.spawn_failed("No such file or directory (os error 2)");
    assert!(build.build_done && !build.build_success);
    assert_eq!(
        build.raw_lines,
        vec!["ERROR: Failed to spawn build: No such file or directory (os error 2)"]
    );
}

#[test]
fn settings_have_defaults() {
    let config = Config::from_vars(None, None, None);
    assert_eq!(config.build_dir, "./build");
    assert_eq!(config.build_cmd, "cmake --build . -- -j 64");
    assert_eq!(config.log_path, "cpphxbuilder.log");
    assert_eq!(config.shell_command(), "cd ./build && cmake --build . -- -j 64");
    let config = Config::from_vars(
        Some("./build-debug".to_string()),
        Some("ninja -j 64".to_string()),
        Some("x.log".to_string()),
    );
    assert_eq!(config.shell_command(), "cd ./build-debug && ninja -j 64");
    assert_eq!(config.log_path, "x.log");
}

#[test]
fn a_stream_ends_where_reading_fails() {
    let mut build = Build::new();
    let mut stream = Stream::new();
    let mut lines = reads(&["a.c:1:2: error: m", "c"]);
    lines.push(None);
    lines.push(Some("lost".to_string()));
    process_stream_lines(&Parser::new(), &lines, &mut stream, &mut build);
    assert!(stream.ended);
    assert_eq!(stream.last, Some(0));
    process_stream_lines(&Parser::new(), &reads(&["late"]), &mut stream, &mut build);
    assert!(stream.ended);
    assert_eq!(build.raw_lines, vec!["a.c:1:2: error: m", "c"]);
    assert_eq!(build.diagnostics[0].context, vec!["c"]);
}
