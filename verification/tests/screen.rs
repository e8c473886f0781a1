use cpphxbuilder::app::{Action, App, Key, KeyCode, Pane};
use cpphxbuilder::diagnostic::{Color, Diagnostic, Severity};
use cpphxbuilder::layout::{panel_rows, PanelRows};
use cpphxbuilder::render::{
    can_render_diagnostics, can_shorten, render_detail, render_diagnostics, render_log,
    render_statusbar, render_ui, shorten_path, MainPanel,
};
use cpphxbuilder::runner::Build;
use ratatui::layout::{Constraint, Direction, Layout, Rect};

fn diagnostic(file: &str, line: u32, severity: Severity) -> Diagnostic {
    Diagnostic {
        file: file.to_string(),
        line,
        col: 3,
        severity,
        message: format!("message {}", line),
        context: Vec::new(),
    }
}

/// An error, a warning, an error and a note, and ten lines of log.
fn build() -> Build {
    let mut build = Build::new();
    for (i, severity) in [Severity::Error, Severity::Warning, Severity::Error, Severity::Note]
        .into_iter()
        .enumerate()
    {
        build.diagnostics.push(diagnostic("a.cpp", i as u32, severity));
    }
    for i in 0..10 {
        build.raw_lines.push(format!("line {}", i));
    }
    build
}

fn press(app: &mut App, code: KeyCode, height: u16, build: &Build) -> Action {
    app.handle_key(Key { code, control: false }, height, build)
}

fn lines_of(build: &Build) -> Vec<u32> {
    build.diagnostics.iter().map(|d| d.line).collect()
}

#[test]
fn the_first_diagnostic_is_selected_at_the_start() {
    let app = App::new();
    assert_eq!(app.selected, Some(0));
    assert_eq!(app.log_scroll, 0);
    assert_eq!(app.view, Pane::Diagnostics);
    assert!(!app.errors_only);
    assert_eq!(app.selected_diagnostic(&build()).unwrap().line, 0);
    assert!(app.selected_diagnostic(&Build::new()).is_none());
}

#[test]
fn moves_go_round() {
    let build = build();
    let mut app = App::new();
    app.move_up(&build);
    assert_eq!(app.selected, Some(3));
    app.move_down(&build);
    assert_eq!(app.selected, Some(0));
    for _ in 0..4 {
        app.move_down(&build);
    }
    assert_eq!(app.selected, Some(0));
    app.selected = None;
    app.move_down(&build);
    assert_eq!(app.selected, Some(1));
    app.move_down(&Build::new());
    app.move_up(&Build::new());
    assert_eq!(app.selected, Some(1));
    app.selected = Some(9);
    app.move_down(&build);
    assert_eq!(app.selected, Some(2));
}

#[test]
fn pages_stop_at_the_ends() {
    let build = build();
    let mut app = App::new();
    app.page_down(&build, 2);
    assert_eq!(app.selected, Some(2));
    app.page_down(&build, 2);
    assert_eq!(app.selected, Some(3));
    app.page_down(&build, usize::MAX);
    assert_eq!(app.selected, Some(3));
    app.page_up(2);
    assert_eq!(app.selected, Some(1));
    app.page_up(2);
    assert_eq!(app.selected, Some(0));
    app.selected = None;
    app.page_down(&Build::new(), 2);
    assert_eq!(app.selected, None);
    app.page_up(2);
    assert_eq!(app.selected, Some(0));
}

#[test]
fn the_filter_shows_errors_only() {
    let build = build();
    let mut app = App::new();
    app.selected = Some(3);
    assert!(matches!(press(&mut app, KeyCode::Char('f'), 0, &build), Action::Nothing));
    assert!(app.errors_only);
    assert_eq!(app.selected, Some(0));
    let shown: Vec<u32> = app.visible_diagnostics(&build).iter().map(|d| d.line).collect();
    assert_eq!(shown, vec![0, 2]);
    app.move_down(&build);
    assert_eq!(app.selected_diagnostic(&build).unwrap().line, 2);
    press(&mut app, KeyCode::Char('f'), 0, &build);
    assert!(!app.errors_only);
    assert_eq!(app.visible_diagnostics(&build).len(), 4);
    press(&mut app, KeyCode::Char('f'), 0, &Build::new());
    assert_eq!(app.selected, None);
    assert_eq!(lines_of(&build), vec![0, 1, 2, 3]);
}

#[test]
fn keys_move_the_selection() {
    let build = build();
    let mut app = App::new();
    press(&mut app, KeyCode::Char('j'), 0, &build);
    assert_eq!(app.selected, Some(1));
    press(&mut app, KeyCode::Down, 0, &build);
    assert_eq!(app.selected, Some(2));
    press(&mut app, KeyCode::Char('k'), 0, &build);
    press(&mut app, KeyCode::Up, 0, &build);
    assert_eq!(app.selected, Some(0));
    press(&mut app, KeyCode::End, 0, &build);
    assert_eq!(app.selected, Some(3));
    press(&mut app, KeyCode::Home, 0, &build);
    assert_eq!(app.selected, Some(0));
    press(&mut app, KeyCode::PageDown, 19, &build);
    assert_eq!(app.selected, Some(2));
    press(&mut app, KeyCode::PageUp, 13, &build);
    assert_eq!(app.selected, Some(1));
    press(&mut app, KeyCode::PageUp, 4, &build);
    assert_eq!(app.selected, Some(1));
    press(&mut app, KeyCode::End, 0, &Build::new());
    assert_eq!(app.selected, Some(1));
}

#[test]
fn keys_scroll_the_log() {
    let build = build();
    let mut app = App::new();
    press(&mut app, KeyCode::Tab, 0, &build);
    assert_eq!((app.view, app.log_scroll), (Pane::Log, 10));
    press(&mut app, KeyCode::PageUp, 4, &build);
    assert_eq!(app.log_scroll, 6);
    press(&mut app, KeyCode::PageUp, 40, &build);
    assert_eq!(app.log_scroll, 0);
    press(&mut app, KeyCode::PageDown, 4, &build);
    assert_eq!(app.log_scroll, 2);
    press(&mut app, KeyCode::End, 0, &build);
    assert_eq!(app.log_scroll, 10);
    press(&mut app, KeyCode::Home, 0, &build);
    assert_eq!(app.log_scroll, 0);
    app.log_scroll = usize::MAX;
    press(&mut app, KeyCode::PageDown, 4, &build);
    assert_eq!(app.log_scroll, usize::MAX);
    press(&mut app, KeyCode::Tab, 0, &build);
    assert_eq!((app.view, app.log_scroll), (Pane::Diagnostics, usize::MAX));
    assert_eq!(app.selected, Some(0));
}

#[test]
fn pages_of_the_log_start_at_what_is_shown() {
    let mut build = Build::new();
    for i in 0..100 {
        build.raw_lines.push(format!("line {}", i));
    }
    build.finished(true);
    let mut app = App::new();
    app.view = Pane::Log;
    let mut first = |codes: &[KeyCode]| {
        for code in codes {
            press(&mut app, *code, 40, &build);
        }
        match render_ui(&mut app, &build, 80, 40).main {
            MainPanel::Log(panel) => panel.lines[0].clone(),
            MainPanel::Diagnostics(_) => panic!("the list"),
        }
    };
    assert_eq!(first(&[KeyCode::End]), "line 75");
    assert_eq!(first(&[KeyCode::PageUp]), "line 50");
    assert_eq!(first(&[KeyCode::PageDown]), "line 75");
    assert_eq!(first(&[KeyCode::PageDown, KeyCode::PageDown, KeyCode::PageUp]), "line 50");
    assert_eq!(first(&[KeyCode::PageUp]), "line 25");
    assert_eq!(first(&[KeyCode::PageUp]), "line 0");
    assert_eq!(first(&[KeyCode::PageUp]), "line 0");
    assert_eq!(first(&[KeyCode::PageDown]), "line 25");
}

#[test]
fn rows_are_shared_out_among_the_panels() {
    let rows = |main, detail, status| PanelRows { main, detail, status };
    assert_eq!(panel_rows(40), rows(27, 12, 1));
    assert_eq!(panel_rows(18), rows(5, 12, 1));
    assert_eq!(panel_rows(17), rows(5, 11, 1));
    assert_eq!(panel_rows(13), rows(5, 7, 1));
    assert_eq!(panel_rows(8), rows(5, 2, 1));
    assert_eq!(panel_rows(7), rows(5, 1, 1));
    assert_eq!(panel_rows(6), rows(5, 1, 0));
    for height in 0..6 {
        assert_eq!(panel_rows(height), rows(height, 0, 0));
    }
    for height in 7..18 {
        assert_eq!(panel_rows(height), rows(5, height - 6, 1));
    }
    for height in (18..600).chain([1000, 9999, 32768, 65534, 65535]) {
        assert_eq!(panel_rows(height), rows(height - 13, 12, 1));
    }
}

#[test]
fn columns_with_a_last_row_are_split_by_rank() {
    for least in 0..9u16 {
        for length in 0..15u16 {
            for height in 0..40u16 {
                let parts = Layout::default()
                    .direction(Direction::Vertical)
                    .constraints([
                        Constraint::Min(least),
                        Constraint::Length(length),
                        Constraint::Length(1),
                    ])
                    .split(Rect::new(0, 0, 1, height));
                let expected = if height >= least + length + 1 {
                    [height - length - 1, length, 1]
                } else if height > least + 1 {
                    [least, height - least - 1, 1]
                } else if height == least + 1 {
                    [least, 1, 0]
                } else {
                    [height, 0, 0]
                };
                let found = [parts[0].height, parts[1].height, parts[2].height];
                assert_eq!(found, expected, "{} {} {}", least, length, height);
            }
        }
    }
}

#[test]
fn the_detail_panel_has_room_for_all_context() {
    let mut build = build();
    for i in 1..9 {
        build.diagnostics[0].context.push(format!("c{}", i));
    }
    for height in 18..60 {
        let screen = render_ui(&mut App::new(), &build, 80, height);
        assert_eq!(screen.detail.len(), 10);
        assert_eq!(screen.detail[9][0].text, "  c8");
        assert_eq!(screen.rows.detail, 12);
    }
}

#[test]
fn keys_ask_for_actions() {
    let build = build();
    let mut app = App::new();
    let before = app;
    assert!(matches!(press(&mut app, KeyCode::Char('q'), 0, &build), Action::Quit));
    assert!(matches!(press(&mut app, KeyCode::Char('c'), 0, &build), Action::Nothing));
    let ctrl_c = Key { code: KeyCode::Char('c'), control: true };
    assert!(matches!(app.handle_key(ctrl_c, 0, &build), Action::Quit));
    assert!(matches!(press(&mut app, KeyCode::Char('r'), 0, &build), Action::Rebuild));
    match press(&mut app, KeyCode::Enter, 0, &build) {
        Action::Open(d) => assert_eq!(d.location(), "a.cpp:0:3"),
        other => panic!("{:?}", other),
    }
    assert!(matches!(press(&mut app, KeyCode::Enter, 0, &Build::new()), Action::Nothing));
    assert!(matches!(press(&mut app, KeyCode::Other, 0, &build), Action::Nothing));
    assert!(matches!(press(&mut app, KeyCode::Char('x'), 0, &build), Action::Nothing));
    assert_eq!(app, before);
}

#[test]
fn a_new_build_starts_at_the_top() {
    let mut app = App { selected: Some(3), log_scroll: 7, view: Pane::Log, errors_only: true };
    app.restart();
    assert_eq!(app, App { selected: Some(0), log_scroll: 0, view: Pane::Log, errors_only: true });
}

#[test]
fn output_keeps_the_selection() {
    let mut build = build();
    let mut app = App::new();
    press(&mut app, KeyCode::Char('f'), 0, &build);
    app.move_down(&build);
    build.diagnostics[2].context.push("c".to_string());
    build.diagnostics.push(diagnostic("b.cpp", 9, Severity::Error));
    let d = app.selected_diagnostic(&build).unwrap();
    assert_eq!((d.line, d.context.len()), (2, 1));
}

#[test]
fn long_paths_are_cut_in_front() {
    assert_eq!(shorten_path("abc", 3), "abc");
    assert_eq!(shorten_path("abcd", 3), "…cd");
    assert_eq!(shorten_path("abcd", 1), "…");
    assert_eq!(shorten_path("abcd", 0), "…");
    assert_eq!(shorten_path("", 0), "");
    assert_eq!(shorten_path("xé", 3), "xé");
    assert_eq!(shorten_path("xyzé", 3), "…é");
    assert_eq!(shorten_path("…é", 3), "…é");
    assert!(can_shorten("xyzé", 3));
    assert!(!can_shorten("xyzé", 2));
    assert!(can_shorten("é", 2));
}

#[test]
fn rows_line_up() {
    let mut build = Build::new();
    build.diagnostics.push(diagnostic("a.cpp", 7, Severity::Error));
    build.diagnostics.push(diagnostic("some/long/path/to/file.cpp", 12345, Severity::Warning));
    let panel = render_diagnostics(&App::new(), &build, 20);
    assert_eq!(panel.title, " Building…  2 diagnostics so far ");
    let row: Vec<&str> = panel.rows[0].iter().map(|s| s.text.as_str()).collect();
    assert_eq!(row, vec![" ERR ", "a.cpp           ", " :7    ", "message 7"]);
    let row: Vec<&str> = panel.rows[1].iter().map(|s| s.text.as_str()).collect();
    assert_eq!(row, vec![" WRN ", "…ath/to/file.cpp", " :12345 ", "message 12345"]);
    let looks: Vec<(Color, bool)> = panel.rows[0].iter().map(|s| (s.fg, s.bold)).collect();
    assert_eq!(
        looks,
        vec![
            (Color::Red, true),
            (Color::Blue, false),
            (Color::DarkGray, false),
            (Color::White, false)
        ]
    );
    for (width, column) in [(0, 16), (41, 16), (42, 17), (73, 48), (74, 48), (300, 48)] {
        let panel = render_diagnostics(&App::new(), &build, width);
        for row in panel.rows {
            assert_eq!(row[1].text.chars().count(), column);
        }
    }
}

#[test]
fn titles_count_what_is_shown() {
    let mut build = build();
    let mut app = App::new();
    build.finished(false);
    assert_eq!(
        render_diagnostics(&app, &build, 80).title,
        " Diagnostics  2 errors  1 warnings  — ✗ BUILD FAILED "
    );
    build.finished(true);
    app.errors_only = true;
    let panel = render_diagnostics(&app, &build, 80);
    assert_eq!(panel.title, " Diagnostics  2 errors  0 warnings  — ✓ BUILD OK ");
    assert_eq!(panel.rows.len(), 2);
}

#[test]
fn file_names_are_not_cut_inside_a_character() {
    let mut build = Build::new();
    build.diagnostics.push(diagnostic("ééééééééééé.cpp", 1, Severity::Error));
    assert!(can_render_diagnostics(&App::new(), &build, 80));
    assert!(can_render_diagnostics(&App::new(), &build, 42));
    assert!(!can_render_diagnostics(&App::new(), &build, 43));
}

#[test]
fn the_log_follows_the_build() {
    let mut build = build();
    let mut app = App::new();
    app.log_scroll = 3;
    let panel = render_log(&mut app, &build, 6);
    assert_eq!(panel.title, " Build Output (10/10 lines) ");
    assert_eq!(panel.lines, vec!["line 6", "line 7", "line 8", "line 9"]);
    assert_eq!(app.log_scroll, 6);
    build.finished(true);
    app.log_scroll = 3;
    let panel = render_log(&mut app, &build, 6);
    assert_eq!(panel.title, " Build Output (7/10 lines) ");
    assert_eq!(panel.lines, vec!["line 3", "line 4", "line 5", "line 6"]);
    app.log_scroll = 100;
    let panel = render_log(&mut app, &build, 6);
    assert_eq!(panel.lines[0], "line 6");
    assert_eq!(app.log_scroll, 100);
    let panel = render_log(&mut app, &build, 50);
    assert_eq!(panel.title, " Build Output (48/10 lines) ");
    assert_eq!(panel.lines.len(), 10);
    assert!(render_log(&mut app, &build, 1).lines.is_empty());
}

#[test]
fn home_and_end_reach_the_ends_of_a_long_log() {
    let mut build = Build::new();
    for i in 0..70000 {
        build.raw_lines.push(format!("line {}", i));
    }
    build.finished(true);
    let mut app = App::new();
    press(&mut app, KeyCode::Tab, 0, &build);
    assert_eq!(render_log(&mut app, &build, 4).lines, vec!["line 69998", "line 69999"]);
    press(&mut app, KeyCode::Home, 0, &build);
    assert_eq!(render_log(&mut app, &build, 4).lines, vec!["line 0", "line 1"]);
    press(&mut app, KeyCode::End, 0, &build);
    assert_eq!(render_log(&mut app, &build, 4).lines, vec!["line 69998", "line 69999"]);
}

#[test]
fn details_show_place_message_and_context() {
    let mut build = build();
    build.diagnostics[0].context = vec!["int x".to_string(), "^".to_string()];
    let lines = render_detail(&App::new(), &build);
    let texts: Vec<String> =
        lines.iter().map(|l| l.iter().map(|s| s.text.clone()).collect::<String>()).collect();
    assert_eq!(
        texts,
        vec!["  Location: a.cpp:0:3", "  [ERR] message 0", "  int x", "  ^"]
    );
    assert_eq!((lines[0][0].fg, lines[0][0].bold), (Color::DarkGray, false));
    assert_eq!((lines[0][1].fg, lines[0][1].bold), (Color::Blue, true));
    assert_eq!((lines[1][0].fg, lines[1][0].bold), (Color::Red, true));
    assert_eq!((lines[1][1].fg, lines[1][1].bold), (Color::White, false));
    assert_eq!((lines[2][0].fg, lines[2][0].bold), (Color::DarkGray, false));
    let lines = render_detail(&App::new(), &Build::new());
    assert_eq!(lines.len(), 1);
    assert_eq!(lines[0][0].text, " No diagnostics selected");
}

#[test]
fn the_status_bar_names_the_keys() {
    let mut build = Build::new();
    let mut app = App::new();
    assert_eq!(
        render_statusbar(&app, &build),
        "  Building…   Tab:log  f:errors only  q:quit"
    );
    build.finished(true);
    app.view = Pane::Log;
    app.errors_only = true;
    assert_eq!(
        render_statusbar(&app, &build),
        "  ↑/↓/j/k:nav   Enter:open in hx   r:rebuild   Tab:diag   f:show all   q:quit"
    );
}

#[test]
fn the_screen_shows_the_chosen_view() {
    let build = build();
    let mut app = App::new();
    let screen = render_ui(&mut app, &build, 80, 19);
    match screen.main {
        MainPanel::Diagnostics(panel) => assert_eq!(panel.rows.len(), 4),
        MainPanel::Log(_) => panic!("the log"),
    }
    assert_eq!(screen.detail.len(), 2);
    assert_eq!(app, App::new());
    press(&mut app, KeyCode::Tab, 0, &build);
    let screen = render_ui(&mut app, &build, 80, 19);
    match screen.main {
        MainPanel::Diagnostics(_) => panic!("the list"),
        MainPanel::Log(panel) => assert_eq!(panel.lines.len(), 4),
    }
    assert_eq!(app.log_scroll, 6);
    assert_eq!(screen.status, "  Building…   Tab:diag  f:errors only  q:quit");
}
