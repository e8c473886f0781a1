//! What the screen shows: titles, rows and lines, with their colours.

use crate::app::{addressable, last_page, log_page, pressed, selection, visible, App, Key, KeyCode, Pane};
use crate::diagnostic::{
    law_severities_look_different, location_text, severity_color, severity_label, views, Color, Diagnostic, DiagnosticView,
    Severity,
};
use crate::layout::{
    log_bottom, panel_rows, room, rows_of, PanelRows, FRAME_ROWS, FULL_HEIGHT,
};
use crate::runner::{Build, BuildView, CONTEXT_LIMIT};
use crate::streams::{law_shared_context_is_limited, shared, Arrival};
use crate::text::{
    decimal, law_padding_adds_spaces, lemma_texts_push, pad_right, padded, texts, to_decimal,
};
use vstd::prelude::*;
use vstd::utf8::{
    decode_utf8, decode_utf8_encode_utf8, decode_utf8_split, encode_scalar, encode_utf8,
    encode_utf8_decode_utf8, encode_utf8_first_scalar, encode_utf8_valid_utf8, is_ascii_chars,
    is_ascii_chars_encode_utf8, is_char_boundary, is_char_boundary_iff_not_is_continuation_byte,
    is_char_boundary_start_end_of_seq, length_of_first_scalar, pop_first_scalar, valid_utf8_split,
};

verus! {

/// How many bytes of a path too long for `max_len` are kept.
pub open spec fn kept_len(max_len: nat) -> nat {
    if max_len > 0 {
        (max_len - 1) as nat
    } else {
        0
    }
}

/// The path, or an ellipsis and the end of the path, where its UTF-8 form is
/// longer than `max_len` bytes.
pub open spec fn shortened(path: Seq<char>, max_len: nat) -> Seq<char> {
    let bytes = encode_utf8(path);
    if bytes.len() <= max_len {
        path
    } else {
        seq!['…'] + decode_utf8(bytes.skip(bytes.len() - kept_len(max_len)))
    }
}

/// Shortening the path does not cut a character in two.
pub open spec fn shortenable(path: Seq<char>, max_len: nat) -> bool {
    let bytes = encode_utf8(path);
    bytes.len() > max_len ==> is_char_boundary(bytes, bytes.len() - kept_len(max_len))
}

/// Whether `path` can be shortened to `max_len` bytes without cutting a
/// character in two.
pub fn can_shorten(path: &str, max_len: usize) -> (res: bool)
    ensures
        res == shortenable(path@, max_len as nat),
{
    let len: usize = path.as_bytes().len();
    if len <= max_len {
        return true;
    }
    path.is_char_boundary(len - max_len.saturating_sub(1))
}

/// Shortens a path from the front.
pub fn shorten_path(path: &str, max_len: usize) -> (res: String)
    requires
        shortenable(path@, max_len as nat),
    ensures
        res@ == shortened(path@, max_len as nat),
{
    let len: usize = path.as_bytes().len();
    if len <= max_len {
        return path.to_owned();
    }
    let keep: usize = max_len.saturating_sub(1);
    let tail: &str = path.split_at(len - keep).1;
    proof {
        encode_utf8_decode_utf8(tail@);
        assert(encode_utf8(tail@) =~= encode_utf8(path@).skip(len - keep));
    }
    let mut res: String = String::new();
    res.push('…');
    res.append(tail);
    assert(res@ =~= seq!['…'] + tail@);
    res
}

/// A run of text in one style.
#[derive(Debug)]
pub struct Span {
    pub text: String,
    pub fg: Color,
    pub bold: bool,
}

#[verifier::ext_equal]
pub struct SpanView {
    pub text: Seq<char>,
    pub fg: Color,
    pub bold: bool,
}

impl View for Span {
    type V = SpanView;

    open spec fn view(&self) -> SpanView {
        SpanView { text: self.text@, fg: self.fg, bold: self.bold }
    }
}

/// The runs of one line.
pub open spec fn line_view(line: Vec<Span>) -> Seq<SpanView> {
    line@.map_values(|s: Span| s@)
}

pub open spec fn lines_view(lines: Seq<Vec<Span>>) -> Seq<Seq<SpanView>> {
    lines.map_values(|line: Vec<Span>| line_view(line))
}

proof fn lemma_lines_push(lines: Seq<Vec<Span>>, line: Vec<Span>)
    ensures
        lines_view(lines.push(line)) == lines_view(lines).push(line_view(line)),
{
    assert(lines_view(lines.push(line)) =~= lines_view(lines).push(line_view(line)));
}

pub open spec fn plain_span(text: Seq<char>, fg: Color) -> SpanView {
    SpanView { text, fg, bold: false }
}

pub open spec fn bold_span(text: Seq<char>, fg: Color) -> SpanView {
    SpanView { text, fg, bold: true }
}

fn plain(text: String, fg: Color) -> (res: Span)
    ensures
        res@ == plain_span(text@, fg),
{
    Span { text, fg, bold: false }
}

fn bold(text: String, fg: Color) -> (res: Span)
    ensures
        res@ == bold_span(text@, fg),
{
    Span { text, fg, bold: true }
}

fn joined(before: &str, text: &str, after: &str) -> (res: String)
    ensures
        res@ == before@ + text@ + after@,
{
    let mut res: String = before.to_owned();
    res.append(text);
    res.append(after);
    res
}

/// The width of the file column in a list of this width.
pub open spec fn file_width(width: u16) -> nat {
    if width < 25 + 16 {
        16
    } else if width > 25 + 48 {
        48
    } else {
        (width - 25) as nat
    }
}

fn max_file(width: u16) -> (res: usize)
    ensures
        res == file_width(width),
{
    let room: usize = (width as usize).saturating_sub(25);
    if room > 48 {
        48
    } else if room < 16 {
        16
    } else {
        room
    }
}

/// How many diagnostics have this severity.
pub open spec fn severity_count(diagnostics: Seq<DiagnosticView>, severity: Severity) -> nat {
    diagnostics.filter(|d: DiagnosticView| d.severity == severity).len()
}

fn count_severity(diagnostics: &Vec<Diagnostic>, severity: Severity) -> (res: usize)
    ensures
        res == severity_count(views(diagnostics@), severity),
{
    let mut res: usize = 0;
    let ghost all = views(diagnostics@);
    assert(severity_count(all.take(0), severity) == 0) by {
        reveal(Seq::filter);
        assert(all.take(0) =~= Seq::empty());
    }
    for i in 0..diagnostics.len()
        invariant
            all == views(diagnostics@),
            res == severity_count(all.take(i as int), severity),
            res <= i,
    {
        proof {
            reveal(Seq::filter);
            assert(all.take(i + 1).drop_last() =~= all.take(i as int));
            assert(all.take(i + 1).last() == diagnostics@[i as int]@);
        }
        if diagnostics[i].severity == severity {
            res = res + 1;
        }
    }
    assert(all.take(all.len() as int) =~= all);
    res
}

/// The title above the list of diagnostics.
pub open spec fn diagnostics_title(shown: Seq<DiagnosticView>, build: BuildView) -> Seq<char> {
    if build.build_done {
        " Diagnostics  "@ + decimal(severity_count(shown, Severity::Error)) + " errors  "@
            + decimal(severity_count(shown, Severity::Warning)) + " warnings  — "@ + (
        if build.build_success {
            "✓ BUILD OK"@
        } else {
            "✗ BUILD FAILED"@
        }) + " "@
    } else {
        " Building…  "@ + decimal(shown.len()) + " diagnostics so far "@
    }
}

/// The row of a diagnostic: severity, file, line and message.
pub open spec fn diagnostic_row(d: DiagnosticView, width: u16) -> Seq<SpanView> {
    seq![
        bold_span(" "@ + severity_label(d.severity) + " "@, severity_color(d.severity)),
        plain_span(padded(shortened(d.file, file_width(width)), file_width(width)), Color::Blue),
        plain_span(" :"@ + padded(decimal(d.line as nat), 4) + " "@, Color::DarkGray),
        plain_span(d.message, Color::White),
    ]
}

/// Every file name that the list shows can be shortened to its column.
pub open spec fn rows_fit(shown: Seq<DiagnosticView>, width: u16) -> bool {
    forall|i: int|
        0 <= i < shown.len() ==> shortenable((#[trigger] shown[i]).file, file_width(width))
}

/// The list of diagnostics.
pub struct DiagnosticsPanel {
    pub title: String,
    pub rows: Vec<Vec<Span>>,
}

/// Whether the list can be shown at this width.
pub fn can_render_diagnostics(app: &App, build: &Build, width: u16) -> (res: bool)
    ensures
        res == rows_fit(visible(build@.diagnostics, app.errors_only), width),
{
    let shown: Vec<Diagnostic> = app.visible_diagnostics(build);
    let room: usize = max_file(width);
    let ghost all = views(shown@);
    for i in 0..shown.len()
        invariant
            all == views(shown@),
            all == visible(build@.diagnostics, app.errors_only),
            room == file_width(width),
            forall|j: int|
                0 <= j < i ==> shortenable((#[trigger] all[j]).file, file_width(width)),
    {
        assert(all[i as int] == shown@[i as int]@);
        if !can_shorten(shown[i].file.as_str(), room) {
            assert(!shortenable(all[i as int].file, file_width(width)));
            return false;
        }
    }
    true
}

fn render_row(d: &Diagnostic, width: u16) -> (res: Vec<Span>)
    requires
        shortenable(d.file@, file_width(width)),
    ensures
        line_view(res) == diagnostic_row(d@, width),
{
    let room: usize = max_file(width);
    let mut row: Vec<Span> = Vec::new();
    row.push(bold(joined(" ", d.severity.label(), " "), d.severity.color()));
    let file: String = shorten_path(d.file.as_str(), room);
    row.push(plain(pad_right(file.as_str(), room), Color::Blue));
    let line: String = pad_right(to_decimal(d.line as u64).as_str(), 4);
    row.push(plain(joined(" :", line.as_str(), " "), Color::DarkGray));
    row.push(plain(d.message.clone(), Color::White));
    assert(line_view(row) =~= diagnostic_row(d@, width));
    row
}

fn render_title(shown: &Vec<Diagnostic>, build: &Build) -> (res: String)
    ensures
        res@ == diagnostics_title(views(shown@), build@),
{
    if build.build_done {
        let n_err: usize = count_severity(shown, Severity::Error);
        let n_warn: usize = count_severity(shown, Severity::Warning);
        let mut title: String = " Diagnostics  ".to_owned();
        title.append(to_decimal(n_err as u64).as_str());
        title.append(" errors  ");
        title.append(to_decimal(n_warn as u64).as_str());
        title.append(" warnings  — ");
        title.append(
            if build.build_success {
                "✓ BUILD OK"
            } else {
                "✗ BUILD FAILED"
            },
        );
        title.append(" ");
        title
    } else {
        joined(" Building…  ", to_decimal(shown.len() as u64).as_str(), " diagnostics so far ")
    }
}

/// Lays out the list of diagnostics at this width.
pub fn render_diagnostics(app: &App, build: &Build, width: u16) -> (res: DiagnosticsPanel)
    requires
        rows_fit(visible(build@.diagnostics, app.errors_only), width),
    ensures
        res.title@ == diagnostics_title(visible(build@.diagnostics, app.errors_only), build@),
        lines_view(res.rows@) == visible(build@.diagnostics, app.errors_only).map_values(
            |d: DiagnosticView| diagnostic_row(d, width),
        ),
{
    let shown: Vec<Diagnostic> = app.visible_diagnostics(build);
    let title: String = render_title(&shown, build);
    let mut rows: Vec<Vec<Span>> = Vec::new();
    let ghost all = views(shown@);
    let ghost wanted = all.map_values(|d: DiagnosticView| diagnostic_row(d, width));
    for i in 0..shown.len()
        invariant
            all == views(shown@),
            rows_fit(all, width),
            wanted == all.map_values(|d: DiagnosticView| diagnostic_row(d, width)),
            lines_view(rows@) == wanted.take(i as int),
    {
        assert(all[i as int] == shown@[i as int]@);
        let row: Vec<Span> = render_row(&shown[i], width);
        proof {
            lemma_lines_push(rows@, row);
            assert(wanted.take(i + 1) =~= wanted.take(i as int).push(line_view(row)));
        }
        rows.push(row);
    }
    assert(wanted.take(wanted.len() as int) =~= wanted);
    DiagnosticsPanel { title, rows }
}

/// The first line of the log that is shown: that of the last page while the
/// build runs, then the one scrolled to, but none behind the last page.
pub open spec fn log_start(app: App, build: BuildView, height: u16) -> nat {
    let bottom = log_bottom(build.raw_lines.len(), room(height));
    if !build.build_done || app.log_scroll > bottom {
        bottom
    } else {
        app.log_scroll as nat
    }
}

/// At most `room` lines from `start` on.
pub open spec fn window(lines: Seq<Seq<char>>, start: nat, room: nat) -> Seq<Seq<char>> {
    if start + room <= lines.len() {
        lines.subrange(start as int, (start + room) as int)
    } else {
        lines.skip(start as int)
    }
}

pub open spec fn log_lines(app: App, build: BuildView, height: u16) -> Seq<Seq<char>> {
    window(build.raw_lines, log_start(app, build, height), room(height))
}

/// The title above the log.
pub open spec fn log_title(app: App, build: BuildView, height: u16) -> Seq<char> {
    " Build Output ("@ + decimal(log_start(app, build, height) + room(height)) + "/"@ + decimal(
        build.raw_lines.len(),
    ) + " lines) "@
}

/// While the build runs, the place in the log follows it.
pub open spec fn log_followed(app: App, build: BuildView, height: u16) -> App {
    if build.build_done {
        app
    } else {
        App { log_scroll: log_start(app, build, height) as usize, ..app }
    }
}

/// The output of the build.
pub struct LogPanel {
    pub title: String,
    pub lines: Vec<String>,
}

/// Lays out the log in a frame of this height.
pub fn render_log(app: &mut App, build: &Build, height: u16) -> (res: LogPanel)
    ensures
        *final(app) == log_followed(*old(app), build@, height),
        res.title@ == log_title(*old(app), build@, height),
        texts(res.lines@) == log_lines(*old(app), build@, height),
{
    let total: usize = build.raw_lines.len();
    let visible_height: usize = height.saturating_sub(FRAME_ROWS) as usize;
    let bottom: usize = total.saturating_sub(visible_height);
    let scroll: usize = if !build.build_done || app.log_scroll > bottom {
        bottom
    } else {
        app.log_scroll
    };
    assert(scroll == log_start(*app, build@, height));
    let ghost wanted = log_lines(*app, build@, height);
    let end: usize = if visible_height <= total - scroll {
        scroll + visible_height
    } else {
        total
    };
    let mut lines: Vec<String> = Vec::new();
    assert(wanted.len() == end - scroll);
    for i in scroll..end
        invariant
            scroll <= end <= total,
            total == build.raw_lines.len(),
            wanted.len() == end - scroll,
            forall|j: int|
                0 <= j < wanted.len() ==> #[trigger] wanted[j] == build@.raw_lines[scroll + j],
            texts(lines@) == wanted.take(i - scroll),
    {
        let line: String = build.raw_lines[i].clone();
        proof {
            lemma_texts_push(lines@, line);
            assert(wanted[i - scroll] == line@);
            assert(wanted.take(i - scroll + 1) =~= wanted.take(i - scroll).push(line@));
        }
        lines.push(line);
    }
    assert(wanted.take(wanted.len() as int) =~= wanted);
    if !build.build_done {
        app.log_scroll = scroll;
    }
    let mut title: String = " Build Output (".to_owned();
    title.append(to_decimal((scroll + visible_height) as u64).as_str());
    title.append("/");
    title.append(to_decimal(total as u64).as_str());
    title.append(" lines) ");
    LogPanel { title, lines }
}

/// The panel about one diagnostic: where it is, what it says, and its context.
pub open spec fn diagnostic_detail(d: DiagnosticView) -> Seq<Seq<SpanView>> {
    seq![
        seq![
            plain_span("  Location: "@, Color::DarkGray),
            bold_span(location_text(d.file, d.line, d.col), Color::Blue),
        ],
        seq![
            bold_span("  ["@ + severity_label(d.severity) + "] "@, severity_color(d.severity)),
            plain_span(d.message, Color::White),
        ],
    ] + d.context.map_values(
        |line: Seq<char>| seq![plain_span("  "@ + line, Color::DarkGray)],
    )
}

/// The panel below the list.
pub open spec fn detail_lines(selected: Option<DiagnosticView>) -> Seq<Seq<SpanView>> {
    match selected {
        Some(d) => diagnostic_detail(d),
        None => seq![seq![plain_span(" No diagnostics selected"@, Color::DarkGray)]],
    }
}

fn one_span(span: Span) -> (res: Vec<Span>)
    ensures
        line_view(res) == seq![span@],
{
    let mut res: Vec<Span> = Vec::new();
    res.push(span);
    assert(line_view(res) =~= seq![span@]);
    res
}

fn two_spans(first: Span, second: Span) -> (res: Vec<Span>)
    ensures
        line_view(res) == seq![first@, second@],
{
    let mut res: Vec<Span> = Vec::new();
    res.push(first);
    res.push(second);
    assert(line_view(res) =~= seq![first@, second@]);
    res
}

fn render_diagnostic(diag: &Diagnostic) -> (res: Vec<Vec<Span>>)
    ensures
        lines_view(res@) == diagnostic_detail(diag@),
{
    let mut lines: Vec<Vec<Span>> = Vec::new();
    lines.push(
        two_spans(
            plain("  Location: ".to_owned(), Color::DarkGray),
            bold(diag.location(), Color::Blue),
        ),
    );
    lines.push(
        two_spans(
            bold(joined("  [", diag.severity.label(), "] "), diag.severity.color()),
            plain(diag.message.clone(), Color::White),
        ),
    );
    let ghost wanted = diagnostic_detail(diag@);
    assert(lines_view(lines@) =~= wanted.take(2));
    for i in 0..diag.context.len()
        invariant
            wanted == diagnostic_detail(diag@),
            lines_view(lines@) == wanted.take(i + 2),
    {
        let mut text: String = "  ".to_owned();
        text.append(diag.context[i].as_str());
        let line: Vec<Span> = one_span(plain(text, Color::DarkGray));
        proof {
            lemma_lines_push(lines@, line);
            assert(wanted[i + 2] == line_view(line));
            assert(wanted.take(i + 3) =~= wanted.take(i + 2).push(line_view(line)));
        }
        lines.push(line);
    }
    assert(wanted.take(wanted.len() as int) =~= wanted);
    lines
}

/// Lays out the panel about the selected diagnostic.
pub fn render_detail(app: &App, build: &Build) -> (res: Vec<Vec<Span>>)
    ensures
        lines_view(res@) == detail_lines(selection(*app, build@)),
{
    match app.selected_diagnostic(build) {
        Some(diag) => render_diagnostic(&diag),
        None => {
            let mut lines: Vec<Vec<Span>> = Vec::new();
            lines.push(one_span(plain(" No diagnostics selected".to_owned(), Color::DarkGray)));
            assert(lines_view(lines@) =~= detail_lines(None));
            lines
        },
    }
}

pub open spec fn view_hint(view: Pane) -> Seq<char> {
    match view {
        Pane::Diagnostics => "Tab:log"@,
        Pane::Log => "Tab:diag"@,
    }
}

pub open spec fn filter_hint(errors_only: bool) -> Seq<char> {
    if errors_only {
        "f:show all"@
    } else {
        "f:errors only"@
    }
}

/// The text of the status bar.
pub open spec fn status_text(app: App, building: bool) -> Seq<char> {
    if building {
        "  Building…   "@ + view_hint(app.view) + "  "@ + filter_hint(app.errors_only)
            + "  q:quit"@
    } else {
        "  ↑/↓/j/k:nav   Enter:open in hx   r:rebuild   "@ + view_hint(app.view) + "   "@
            + filter_hint(app.errors_only) + "   q:quit"@
    }
}

/// Writes the status bar.
pub fn render_statusbar(app: &App, build: &Build) -> (res: String)
    ensures
        res@ == status_text(*app, !build@.build_done),
{
    let building: bool = !build.build_done;
    let view_hint: &str = match app.view {
        Pane::Diagnostics => "Tab:log",
        Pane::Log => "Tab:diag",
    };
    let filter_hint: &str = if app.errors_only {
        "f:show all"
    } else {
        "f:errors only"
    };
    let mut text: String = String::new();
    if building {
        text.append("  Building…   ");
        text.append(view_hint);
        text.append("  ");
        text.append(filter_hint);
        text.append("  q:quit");
    } else {
        text.append("  ↑/↓/j/k:nav   Enter:open in hx   r:rebuild   ");
        text.append(view_hint);
        text.append("   ");
        text.append(filter_hint);
        text.append("   q:quit");
    }
    assert(text@ =~= status_text(*app, building));
    text
}

/// The main part of the screen.
pub enum MainPanel {
    Diagnostics(DiagnosticsPanel),
    Log(LogPanel),
}

/// All of the screen, and the rows that each part of it takes.
pub struct Screen {
    pub rows: PanelRows,
    pub main: MainPanel,
    pub detail: Vec<Vec<Span>>,
    pub status: String,
}

/// Lays out the screen on a terminal of this width and height.
pub fn render_ui(app: &mut App, build: &Build, width: u16, height: u16) -> (res: Screen)
    requires
        old(app).view == Pane::Diagnostics ==> rows_fit(
            visible(build@.diagnostics, old(app).errors_only),
            width,
        ),
    ensures
        res.rows == rows_of(height),
        *final(app) == (match old(app).view {
            Pane::Diagnostics => *old(app),
            Pane::Log => log_followed(*old(app), build@, rows_of(height).main),
        }),
        old(app).view == Pane::Diagnostics ==> (res.main matches MainPanel::Diagnostics(panel)
            && panel.title@ == diagnostics_title(
            visible(build@.diagnostics, old(app).errors_only),
            build@,
        ) && lines_view(panel.rows@) == visible(
            build@.diagnostics,
            old(app).errors_only,
        ).map_values(|d: DiagnosticView| diagnostic_row(d, width))),
        old(app).view == Pane::Log ==> (res.main matches MainPanel::Log(panel) && panel.title@
            == log_title(*old(app), build@, rows_of(height).main) && texts(panel.lines@)
            == log_lines(*old(app), build@, rows_of(height).main)),
        lines_view(res.detail@) == detail_lines(selection(*old(app), build@)),
        height >= FULL_HEIGHT && (selection(*old(app), build@) matches Some(d) ==> d.context.len()
            <= CONTEXT_LIMIT) ==> res.detail@.len() <= room(res.rows.detail),
        res.status@ == status_text(*old(app), !build@.build_done),
{
    let rows: PanelRows = panel_rows(height);
    let main: MainPanel = match app.view {
        Pane::Diagnostics => MainPanel::Diagnostics(render_diagnostics(app, build, width)),
        Pane::Log => MainPanel::Log(render_log(app, build, rows.main)),
    };
    let detail: Vec<Vec<Span>> = render_detail(app, build);
    assert(detail@.len() == lines_view(detail@).len());
    Screen { rows, main, detail, status: render_statusbar(app, build) }
}

/// On a terminal that is high enough, the detail panel has room for all that a
/// diagnostic of a build holds: its location, its message, and all of its
/// context.
pub proof fn law_context_fits_detail_panel(arrivals: Seq<Arrival>, i: int, height: u16)
    requires
        0 <= i < shared(arrivals).diagnostics.len(),
        height >= FULL_HEIGHT,
    ensures
        detail_lines(Some(shared(arrivals).diagnostics[i])).len() <= room(rows_of(height).detail),
{
    law_shared_context_is_limited(arrivals);
}

/// `len` lines from the end.
pub open spec fn last_lines(lines: Seq<Seq<char>>, len: nat) -> Seq<Seq<char>> {
    if lines.len() > len {
        lines.skip(lines.len() - len)
    } else {
        lines
    }
}

/// `len` lines from the start.
pub open spec fn first_lines(lines: Seq<Seq<char>>, len: nat) -> Seq<Seq<char>> {
    if lines.len() > len {
        lines.take(len as int)
    } else {
        lines
    }
}

/// While the build runs, the log shows its end.
pub proof fn law_log_follows_build(app: App, build: BuildView, height: u16)
    requires
        !build.build_done,
    ensures
        log_lines(app, build, height) == last_lines(build.raw_lines, room(height)),
{
    assert(log_lines(app, build, height) =~= last_lines(build.raw_lines, room(height)));
}

/// End and Tab lead to the bottom of the log.
pub proof fn law_end_leads_to_bottom(
    app: App,
    control: bool,
    screen: u16,
    build: BuildView,
    height: u16,
)
    requires
        addressable(build),
    ensures
        app.view == Pane::Log ==> log_lines(
            pressed(app, Key { code: KeyCode::End, control }, screen, build),
            build,
            height,
        ) == last_lines(build.raw_lines, room(height)),
        app.view == Pane::Diagnostics ==> log_lines(
            pressed(app, Key { code: KeyCode::Tab, control }, screen, build),
            build,
            height,
        ) == last_lines(build.raw_lines, room(height)),
{
    let end = pressed(app, Key { code: KeyCode::End, control }, screen, build);
    let tab = pressed(app, Key { code: KeyCode::Tab, control }, screen, build);
    if app.view == Pane::Log {
        assert(log_lines(end, build, height) =~= last_lines(build.raw_lines, room(height)));
    } else {
        assert(log_lines(tab, build, height) =~= last_lines(build.raw_lines, room(height)));
    }
}

/// Home leads to the top of the log, once the build is done.
pub proof fn law_home_leads_to_top(
    app: App,
    control: bool,
    screen: u16,
    build: BuildView,
    height: u16,
)
    requires
        app.view == Pane::Log,
        build.build_done,
    ensures
        log_lines(
            pressed(app, Key { code: KeyCode::Home, control }, screen, build),
            build,
            height,
        ) == first_lines(build.raw_lines, room(height)),
{
    let home = pressed(app, Key { code: KeyCode::Home, control }, screen, build);
    assert(log_lines(home, build, height) =~= first_lines(build.raw_lines, room(height)));
}

/// In the log of a build that is done, Page Up moves what is shown back by as
/// many lines as are shown, or to the top, and Page Down moves it on by as many,
/// or to the bottom.
pub proof fn law_pages_move_log(app: App, control: bool, height: u16, build: BuildView)
    requires
        app.view == Pane::Log,
        build.build_done,
        addressable(build),
    ensures
        ({
            let rows = rows_of(height).main;
            let before = log_start(app, build, rows);
            let up = pressed(app, Key { code: KeyCode::PageUp, control }, height, build);
            let down = pressed(app, Key { code: KeyCode::PageDown, control }, height, build);
            &&& log_start(up, build, rows) == if before >= log_page(height) {
                before - log_page(height)
            } else {
                0
            }
            &&& log_start(down, build, rows) == if before + log_page(height) <= last_page(
                build,
                height,
            ) {
                before + log_page(height)
            } else {
                last_page(build, height)
            }
        }),
{
}

proof fn lemma_chars_fit_in_bytes(chars: Seq<char>)
    ensures
        chars.len() <= encode_utf8(chars).len(),
    decreases chars.len(),
{
    if chars.len() > 0 {
        lemma_chars_fit_in_bytes(chars.drop_first());
    }
}

/// The file column has the same width in every row, so the columns behind it
/// line up.
pub proof fn law_file_column_is_aligned(path: Seq<char>, max_len: nat)
    requires
        shortenable(path, max_len),
        max_len > 0,
    ensures
        padded(shortened(path, max_len), max_len).len() == max_len,
{
    let bytes = encode_utf8(path);
    encode_utf8_valid_utf8(path);
    lemma_chars_fit_in_bytes(path);
    if bytes.len() > max_len {
        let tail = bytes.skip(bytes.len() - kept_len(max_len));
        valid_utf8_split(bytes, bytes.len() - kept_len(max_len));
        assert(tail =~= bytes.subrange(bytes.len() - kept_len(max_len), bytes.len() as int));
        decode_utf8_encode_utf8(tail);
        lemma_chars_fit_in_bytes(decode_utf8(tail));
    }
}

/// What is shown of a path that is too long is its own end.
pub proof fn law_end_of_path_is_kept(path: Seq<char>, max_len: nat)
    requires
        shortenable(path, max_len),
        encode_utf8(path).len() > max_len,
    ensures
        shortened(path, max_len)[0] == '…',
        shortened(path, max_len).skip(1).is_suffix_of(path),
        encode_utf8(shortened(path, max_len).skip(1)).len() == kept_len(max_len),
{
    let bytes = encode_utf8(path);
    let cut = bytes.len() - kept_len(max_len);
    encode_utf8_valid_utf8(path);
    encode_utf8_decode_utf8(path);
    valid_utf8_split(bytes, cut);
    decode_utf8_split(bytes, cut);
    let tail = bytes.skip(cut);
    assert(tail =~= bytes.subrange(cut, bytes.len() as int));
    decode_utf8_encode_utf8(tail);
    assert(shortened(path, max_len).skip(1) =~= decode_utf8(tail));
}

/// A path that has been shortened is not shortened any more.
pub proof fn law_shortening_twice(path: Seq<char>, max_len: nat)
    requires
        shortenable(path, max_len),
    ensures
        shortenable(shortened(path, max_len), max_len),
        shortened(shortened(path, max_len), max_len) == shortened(path, max_len),
{
    if encode_utf8(path).len() > max_len {
        let once = shortened(path, max_len);
        let bytes = encode_utf8(once);
        let tail = once.skip(1);
        law_end_of_path_is_kept(path, max_len);
        assert(once.drop_first() =~= tail);
        assert(once =~= seq!['…'] + tail);
        let dots = encode_scalar('…' as u32);
        assert(dots.len() == 3);
        assert(bytes == dots + encode_utf8(tail));
        encode_utf8_valid_utf8(once);
        encode_utf8_first_scalar(once);
        assert(bytes.len() - kept_len(max_len) == 3);
        assert(bytes.skip(3) =~= encode_utf8(tail));
        encode_utf8_decode_utf8(tail);
        assert(pop_first_scalar(bytes) == encode_utf8(tail));
        assert(length_of_first_scalar(bytes) == 3);
        encode_utf8_valid_utf8(tail);
        assert(is_char_boundary(encode_utf8(tail), 0));
        assert(is_char_boundary(bytes, 3));
    }
}

/// A path of ASCII is cut to exactly `max_len` characters, its own end behind an
/// ellipsis.
pub proof fn law_ascii_path_is_cut(path: Seq<char>, max_len: nat)
    requires
        is_ascii_chars(path),
        path.len() > max_len,
        max_len > 0,
    ensures
        shortenable(path, max_len),
        shortened(path, max_len) == seq!['…'] + path.skip(path.len() - (max_len - 1)),
{
    let cut = path.len() - (max_len - 1);
    let bytes = encode_utf8(path);
    encode_utf8_valid_utf8(path);
    is_ascii_chars_encode_utf8(path);
    if cut < path.len() {
        assert(bytes[cut] == path[cut] as u8);
        is_char_boundary_iff_not_is_continuation_byte(bytes, cut);
    } else {
        is_char_boundary_start_end_of_seq(bytes);
    }
    let rest = path.skip(cut);
    is_ascii_chars_encode_utf8(rest);
    assert(encode_utf8(rest) =~= bytes.skip(cut));
    encode_utf8_decode_utf8(rest);
}

/// A path that fits is shown as it is.
pub proof fn law_fitting_path_is_kept(path: Seq<char>, max_len: nat)
    requires
        encode_utf8(path).len() <= max_len,
    ensures
        shortenable(path, max_len),
        shortened(path, max_len) == path,
{
}

proof fn lemma_encoded_apart(front: Seq<char>, back: Seq<char>)
    ensures
        encode_utf8(front + back) == encode_utf8(front) + encode_utf8(back),
        is_char_boundary(encode_utf8(front + back), encode_utf8(front).len() as int),
    decreases front.len(),
{
    let all = front + back;
    let bytes = encode_utf8(all);
    encode_utf8_valid_utf8(all);
    if front.len() == 0 {
        assert(all =~= back);
        assert(encode_utf8(front) + encode_utf8(back) =~= encode_utf8(back));
    } else {
        let rest = front.drop_first();
        let first = encode_scalar(front[0] as u32);
        lemma_encoded_apart(rest, back);
        assert(all.drop_first() =~= rest + back);
        assert(all[0] == front[0]);
        assert(bytes =~= encode_utf8(front) + encode_utf8(back));
        encode_utf8_first_scalar(all);
        assert(pop_first_scalar(bytes) =~= encode_utf8(rest + back));
        assert(encode_utf8(front).len() == first.len() + encode_utf8(rest).len());
        assert(is_char_boundary(bytes, encode_utf8(front).len() as int));
    }
}

/// Any path that is too long can be cut at any character, whatever the
/// characters are: where the end of it takes one byte less than the column has,
/// an ellipsis and that end are shown.
pub proof fn law_path_is_cut_at_characters(front: Seq<char>, back: Seq<char>, max_len: nat)
    requires
        encode_utf8(front + back).len() > max_len,
        max_len > 0 ==> encode_utf8(back).len() == max_len - 1,
        max_len == 0 ==> back.len() == 0,
    ensures
        shortenable(front + back, max_len),
        shortened(front + back, max_len) == seq!['…'] + back,
{
    lemma_encoded_apart(front, back);
    let bytes = encode_utf8(front + back);
    let cut = encode_utf8(front).len() as int;
    if max_len == 0 {
        assert(encode_utf8(back).len() == 0);
    }
    assert(cut == bytes.len() - kept_len(max_len));
    assert(bytes.skip(cut) =~= encode_utf8(back));
    encode_utf8_decode_utf8(back);
}

/// The file column takes what the width leaves, from sixteen to forty-eight
/// characters.
pub proof fn law_file_column_has_limits(width: u16)
    ensures
        16 <= file_width(width) <= 48,
        41 <= width <= 73 ==> file_width(width) + 25 == width,
        width <= 41 ==> file_width(width) == 16,
        width >= 73 ==> file_width(width) == 48,
{
}

/// Every diagnostic is counted for its own severity and for no other.
pub proof fn law_each_diagnostic_counts_once(
    diagnostics: Seq<DiagnosticView>,
    d: DiagnosticView,
    severity: Severity,
)
    ensures
        severity_count(Seq::empty(), severity) == 0,
        severity_count(diagnostics.push(d), severity) == severity_count(diagnostics, severity) + if d.severity
            == severity {
            1nat
        } else {
            0
        },
{
    reveal(Seq::filter);
    assert(diagnostics.push(d).drop_last() =~= diagnostics);
}

/// Once a build is done, the title ends with its outcome: success if and only if
/// the build succeeded, failure if and only if it failed, whatever diagnostics
/// are shown.
pub proof fn law_title_tells_outcome(shown: Seq<DiagnosticView>, build: BuildView)
    requires
        build.build_done,
    ensures
        "✓ BUILD OK "@.is_suffix_of(diagnostics_title(shown, build)) <==> build.build_success,
        "✗ BUILD FAILED "@.is_suffix_of(diagnostics_title(shown, build)) <==> !build.build_success,
{
    reveal_strlit("✓ BUILD OK");
    reveal_strlit("✗ BUILD FAILED");
    reveal_strlit("✓ BUILD OK ");
    reveal_strlit("✗ BUILD FAILED ");
    reveal_strlit(" ");
    let title = diagnostics_title(shown, build);
    let ok = "✓ BUILD OK "@;
    let failed = "✗ BUILD FAILED "@;
    let n = title.len();
    assert("✓ BUILD OK"@ + " "@ =~= ok);
    assert("✗ BUILD FAILED"@ + " "@ =~= failed);
    if build.build_success {
        assert(ok =~= title.skip(n - ok.len()));
        assert(title[n - 2] == 'K');
        if failed.is_suffix_of(title) {
            assert(failed[failed.len() - 2] == title[n - 2]);
        }
    } else {
        assert(failed =~= title.skip(n - failed.len()));
        assert(title[n - 2] == 'D');
        if ok.is_suffix_of(title) {
            assert(ok[ok.len() - 2] == title[n - 2]);
        }
    }
}

/// Once a build is done, the title starts with how many errors and warnings are
/// shown, and the outcome is all that follows.
pub proof fn law_title_counts_what_is_shown(shown: Seq<DiagnosticView>, build: BuildView)
    ensures
        build.build_done ==> {
            let head = " Diagnostics  "@ + decimal(severity_count(shown, Severity::Error))
                + " errors  "@ + decimal(severity_count(shown, Severity::Warning))
                + " warnings  — "@;
            &&& head.is_prefix_of(diagnostics_title(shown, build))
            &&& build.build_success ==> diagnostics_title(shown, build).len() == head.len() + 11
            &&& !build.build_success ==> diagnostics_title(shown, build).len() == head.len() + 15
        },
        !build.build_done ==> diagnostics_title(shown, build) == " Building…  "@ + decimal(
            shown.len(),
        ) + " diagnostics so far "@,
{
    reveal_strlit("✓ BUILD OK");
    reveal_strlit("✗ BUILD FAILED");
    reveal_strlit(" ");
}

/// A row shows the label and the colour of the diagnostic's own severity, its
/// file as far as the column has room, its line, and its message, all of it.
pub proof fn law_row_shows_diagnostic(d: DiagnosticView, width: u16)
    ensures
        ({
            let row = diagnostic_row(d, width);
            let file = shortened(d.file, file_width(width));
            let line = " :"@ + decimal(d.line as nat);
            &&& row.len() == 4
            &&& row[0] == (SpanView {
                text: " "@ + severity_label(d.severity) + " "@,
                fg: severity_color(d.severity),
                bold: true,
            })
            &&& file.is_prefix_of(row[1].text) && row[1].fg == Color::Blue && !row[1].bold
            &&& row[1].text.len() >= file_width(width)
            &&& file.len() <= file_width(width) ==> row[1].text.len() == file_width(width)
            &&& forall|i: int|
                file.len() <= i < row[1].text.len() ==> #[trigger] row[1].text[i] == ' '
            &&& line.is_prefix_of(row[2].text) && row[2].fg == Color::DarkGray && !row[2].bold
            &&& row[2].text.len() >= 7 && row[2].text.last() == ' '
            &&& row[2].text.len() == 7 || row[2].text.len() == line.len() + 1
            &&& forall|i: int|
                line.len() <= i < row[2].text.len() ==> #[trigger] row[2].text[i] == ' '
            &&& row[3] == (SpanView { text: d.message, fg: Color::White, bold: false })
        }),
{
    reveal_strlit(" :");
    reveal_strlit(" ");
    let row = diagnostic_row(d, width);
    let line = " :"@ + decimal(d.line as nat);
    law_padding_adds_spaces(shortened(d.file, file_width(width)), file_width(width));
    law_padding_adds_spaces(decimal(d.line as nat), 4);
    let field = padded(decimal(d.line as nat), 4);
    assert(row[2].text =~= " :"@ + field + " "@);
    assert(line =~= row[2].text.take(line.len() as int));
    assert forall|i: int| line.len() <= i < row[2].text.len() implies #[trigger] row[2].text[i]
        == ' ' by {
        if i - 2 < field.len() {
            assert(row[2].text[i] == field[i - 2]);
        }
    }
}

/// Two diagnostics with different severities look different in the list and in
/// the detail panel.
pub proof fn law_severities_are_told_apart(a: DiagnosticView, b: DiagnosticView, width: u16)
    requires
        a.severity != b.severity,
    ensures
        diagnostic_row(a, width)[0].fg != diagnostic_row(b, width)[0].fg,
        diagnostic_row(a, width)[0].text != diagnostic_row(b, width)[0].text,
        detail_lines(Some(a))[1][0].fg != detail_lines(Some(b))[1][0].fg,
        detail_lines(Some(a))[1][0].text != detail_lines(Some(b))[1][0].text,
{
    law_severities_look_different(a.severity, b.severity);
    law_severities_look_different(b.severity, a.severity);
    let x = severity_label(a.severity);
    let y = severity_label(b.severity);
    reveal_strlit(" ");
    reveal_strlit("  [");
    reveal_strlit("] ");
    if " "@ + x + " "@ == " "@ + y + " "@ {
        assert(x =~= (" "@ + x + " "@).subrange(1, 4));
        assert(y =~= (" "@ + y + " "@).subrange(1, 4));
    }
    if "  ["@ + x + "] "@ == "  ["@ + y + "] "@ {
        assert(x =~= ("  ["@ + x + "] "@).subrange(3, 6));
        assert(y =~= ("  ["@ + y + "] "@).subrange(3, 6));
    }
}

/// The detail panel of a diagnostic shows its location; the label and the colour
/// of its own severity with its message, all of it; and every line of its
/// context, in order.
pub proof fn law_detail_shows_diagnostic(d: DiagnosticView)
    ensures
        ({
            let lines = detail_lines(Some(d));
            &&& lines.len() == 2 + d.context.len()
            &&& lines[0].len() == 2
            &&& lines[0][0] == (SpanView {
                text: "  Location: "@,
                fg: Color::DarkGray,
                bold: false,
            })
            &&& lines[0][1] == (SpanView {
                text: location_text(d.file, d.line, d.col),
                fg: Color::Blue,
                bold: true,
            })
            &&& lines[1].len() == 2
            &&& lines[1][0] == (SpanView {
                text: "  ["@ + severity_label(d.severity) + "] "@,
                fg: severity_color(d.severity),
                bold: true,
            })
            &&& lines[1][1] == (SpanView { text: d.message, fg: Color::White, bold: false })
            &&& forall|i: int|
                0 <= i < d.context.len() ==> #[trigger] lines[2 + i] == seq![
                    SpanView { text: "  "@ + d.context[i], fg: Color::DarkGray, bold: false },
                ]
        }),
        detail_lines(None) == seq![
            seq![
                SpanView { text: " No diagnostics selected"@, fg: Color::DarkGray, bold: false },
            ],
        ],
{
}

/// The list can be shown if and only if every file in it can be shortened to its
/// column.
pub proof fn law_list_is_shown_if_files_fit(shown: Seq<DiagnosticView>, width: u16)
    ensures
        rows_fit(shown, width) <==> forall|i: int|
            0 <= i < shown.len() ==> #[trigger] shortenable(shown[i].file, file_width(width)),
{
    if rows_fit(shown, width) {
        assert forall|i: int| 0 <= i < shown.len() implies #[trigger] shortenable(
            shown[i].file,
            file_width(width),
        ) by {
            assert(shortenable(shown[i].file, file_width(width)));
        }
    } else {
        let i = choose|i: int|
            0 <= i < shown.len() && !shortenable((#[trigger] shown[i]).file, file_width(width));
        assert(!shortenable(shown[i].file, file_width(width)));
    }
}

/// The log shows as many lines as fit, in order and without a gap, from the
/// place scrolled to, as long as that leaves the page full.
pub proof fn law_log_shows_full_page(app: App, build: BuildView, height: u16)
    ensures
        ({
            let total = build.raw_lines.len();
            let shown = log_lines(app, build, height);
            let start = log_start(app, build, height);
            &&& total >= room(height) ==> shown.len() == room(height)
            &&& total < room(height) ==> shown.len() == total
            &&& forall|i: int|
                0 <= i < shown.len() ==> #[trigger] shown[i] == build.raw_lines[start + i]
            &&& build.build_done && app.log_scroll + room(height) <= total ==> start
                == app.log_scroll
            &&& !build.build_done || app.log_scroll + room(height) > total ==> start + shown.len()
                == total
        }),
{
}

/// The title of the log tells the last line shown, of a full page, and how many
/// lines there are.
pub proof fn law_log_title_counts_lines(app: App, build: BuildView, height: u16)
    ensures
        log_title(app, build, height) == " Build Output ("@ + decimal(
            log_start(app, build, height) + room(height),
        ) + "/"@ + decimal(build.raw_lines.len()) + " lines) "@,
{
}

/// Showing the log moves the place in it only while the build runs, and then to
/// what is shown; it changes nothing else.
pub proof fn law_showing_log_keeps_screen(app: App, build: BuildView, height: u16)
    requires
        addressable(build),
    ensures
        build.build_done ==> log_followed(app, build, height) == app,
        !build.build_done ==> log_followed(app, build, height).log_scroll == log_start(
            app,
            build,
            height,
        ),
        log_followed(app, build, height).selected == app.selected,
        log_followed(app, build, height).view == app.view,
        log_followed(app, build, height).errors_only == app.errors_only,
{
}

/// The status bar names the view that Tab leads to and the filter that `f` leads
/// to, whether the build runs or not, and how to quit.
pub proof fn law_status_names_other_view_and_filter(app: App, building: bool) -> (text: (
    Seq<char>,
    Seq<char>,
    Seq<char>,
))
    ensures
        status_text(app, building) == text.0 + (match app.view {
            Pane::Diagnostics => "Tab:log"@,
            Pane::Log => "Tab:diag"@,
        }) + text.1 + (if app.errors_only {
            "f:show all"@
        } else {
            "f:errors only"@
        }) + text.2,
        building ==> text.0 == "  Building…   "@ && text.1 == "  "@ && text.2 == "  q:quit"@,
        !building ==> text.0 == "  ↑/↓/j/k:nav   Enter:open in hx   r:rebuild   "@ && text.1
            == "   "@ && text.2 == "   q:quit"@,
{
    if building {
        ("  Building…   "@, "  "@, "  q:quit"@)
    } else {
        ("  ↑/↓/j/k:nav   Enter:open in hx   r:rebuild   "@, "   "@, "   q:quit"@)
    }
}

/// The view of a run of text holds all of it, and the view of a line, or of
/// lines, every run in order.
pub proof fn law_span_views_are_whole(span: Span, line: Vec<Span>, lines: Seq<Vec<Span>>)
    ensures
        span@.text == span.text@,
        span@.fg == span.fg,
        span@.bold == span.bold,
        line_view(line).len() == line@.len(),
        forall|i: int| 0 <= i < line@.len() ==> #[trigger] line_view(line)[i] == line@[i]@,
        lines_view(lines).len() == lines.len(),
        forall|i: int|
            0 <= i < lines.len() ==> #[trigger] lines_view(lines)[i] == line_view(lines[i]),
{
}

} // verus!
