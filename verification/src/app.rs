//! The state of the screen and what each key does to it.

use crate::diagnostic::{views, Diagnostic, DiagnosticView, Severity};
use crate::layout::{log_bottom, panel_rows, room, rows_of, FRAME_ROWS};
use crate::parser::diagnostic_view;
use crate::runner::{continued, grown, Build, BuildView};
use vstd::arithmetic::div_mod::{lemma_add_mod_noop_right, lemma_mod_self_0, lemma_small_mod};
use vstd::prelude::*;

verus! {

/// What the main part of the screen shows.
#[derive(Debug, Clone, Copy, PartialEq, Eq, Structural)]
pub enum Pane {
    Diagnostics,
    Log,
}

/// What the user has chosen to look at.
#[derive(Debug, Clone, Copy, PartialEq, Eq, Structural)]
pub struct App {
    /// The place of the selected diagnostic among the visible ones.
    pub selected: Option<usize>,
    /// The first line of the log to show.
    pub log_scroll: usize,
    pub view: Pane,
    pub errors_only: bool,
}

pub open spec fn is_error(d: DiagnosticView) -> bool {
    d.severity == Severity::Error
}

/// The diagnostics that pass the filter, in order.
pub open spec fn visible(
    diagnostics: Seq<DiagnosticView>,
    errors_only: bool,
) -> Seq<DiagnosticView> {
    if errors_only {
        diagnostics.filter(|d: DiagnosticView| is_error(d))
    } else {
        diagnostics
    }
}

/// The selected diagnostic, where there is one.
pub open spec fn selection(app: App, build: BuildView) -> Option<DiagnosticView> {
    match app.selected {
        Some(i) => if i < visible(build.diagnostics, app.errors_only).len() {
            Some(visible(build.diagnostics, app.errors_only)[i as int])
        } else {
            None
        },
        None => None,
    }
}

/// Where a move starts: at the selection, or else at the top.
pub open spec fn cursor(app: App) -> usize {
    match app.selected {
        Some(i) => i,
        None => 0,
    }
}

/// One up among `len` diagnostics, from the first to the last.
pub open spec fn moved_up(app: App, len: nat) -> App {
    if len == 0 {
        app
    } else if cursor(app) == 0 {
        App { selected: Some((len - 1) as usize), ..app }
    } else {
        App { selected: Some((cursor(app) - 1) as usize), ..app }
    }
}

/// One down among `len` diagnostics, from the last to the first.
pub open spec fn moved_down(app: App, len: nat) -> App {
    if len == 0 {
        app
    } else {
        App { selected: Some(((cursor(app) + 1) % len as int) as usize), ..app }
    }
}

/// `n` up, but not beyond the first.
pub open spec fn paged_up(app: App, n: nat) -> App {
    if cursor(app) >= n {
        App { selected: Some((cursor(app) - n) as usize), ..app }
    } else {
        App { selected: Some(0), ..app }
    }
}

/// `n` down among `len` diagnostics, but not beyond the last.
pub open spec fn paged_down(app: App, len: nat, n: nat) -> App {
    if len == 0 {
        app
    } else if cursor(app) + n < len {
        App { selected: Some((cursor(app) + n) as usize), ..app }
    } else {
        App { selected: Some((len - 1) as usize), ..app }
    }
}

/// The screen at the start of a new build: the top of both views.
pub open spec fn restarted(app: App) -> App {
    App { selected: Some(0), log_scroll: 0, ..app }
}

impl App {
    pub fn new() -> (res: App)
        ensures
            res == (App {
                selected: Some(0),
                log_scroll: 0,
                view: Pane::Diagnostics,
                errors_only: false,
            }),
    {
        App { selected: Some(0), log_scroll: 0, view: Pane::Diagnostics, errors_only: false }
    }

    /// A new build has taken the place of the last one.
    pub fn restart(&mut self)
        ensures
            *final(self) == restarted(*old(self)),
    {
        self.selected = Some(0);
        self.log_scroll = 0;
    }

    pub fn visible_diagnostics(&self, build: &Build) -> (res: Vec<Diagnostic>)
        ensures
            views(res@) == visible(build@.diagnostics, self.errors_only),
    {
        let mut res: Vec<Diagnostic> = Vec::new();
        let ghost all = build@.diagnostics;
        assert(all.take(0) =~= Seq::empty());
        assert(views(res@) =~= visible(all.take(0), self.errors_only)) by {
            reveal(Seq::filter);
        }
        for i in 0..build.diagnostics.len()
            invariant
                all == build@.diagnostics,
                views(res@) == visible(all.take(i as int), self.errors_only),
        {
            proof {
                reveal(Seq::filter);
                assert(all.take(i + 1).drop_last() =~= all.take(i as int));
                assert(all.take(i + 1) =~= all.take(i as int).push(all[i as int]));
            }
            let d: &Diagnostic = &build.diagnostics[i];
            if !self.errors_only || d.severity == Severity::Error {
                let copy: Diagnostic = d.clone();
                assert(views(res@.push(copy)) =~= views(res@).push(copy@));
                res.push(copy);
            }
        }
        assert(all.take(all.len() as int) =~= all);
        res
    }

    pub fn selected_diagnostic(&self, build: &Build) -> (res: Option<Diagnostic>)
        ensures
            diagnostic_view(res) == selection(*self, build@),
    {
        let shown: Vec<Diagnostic> = self.visible_diagnostics(build);
        match self.selected {
            Some(i) => if i < shown.len() {
                assert(views(shown@)[i as int] == shown@[i as int]@);
                Some(shown[i].clone())
            } else {
                None
            },
            None => None,
        }
    }

    fn cursor(&self) -> (res: usize)
        ensures
            res == cursor(*self),
    {
        match self.selected {
            Some(i) => i,
            None => 0,
        }
    }

    pub fn move_up(&mut self, build: &Build)
        ensures
            *final(self) == moved_up(
                *old(self),
                visible(build@.diagnostics, old(self).errors_only).len(),
            ),
    {
        let len: usize = self.visible_diagnostics(build).len();
        if len == 0 {
            return;
        }
        let i: usize = self.cursor();
        self.selected = Some(
            if i == 0 {
                len - 1
            } else {
                i - 1
            },
        );
    }

    pub fn move_down(&mut self, build: &Build)
        ensures
            *final(self) == moved_down(
                *old(self),
                visible(build@.diagnostics, old(self).errors_only).len(),
            ),
    {
        let len: usize = self.visible_diagnostics(build).len();
        if len == 0 {
            return;
        }
        let i: usize = self.cursor();
        let below: usize = i % len;
        proof {
            lemma_add_mod_noop_right(1, i as int, len as int);
            if below == len - 1 {
                lemma_mod_self_0(len as int);
            } else {
                lemma_small_mod((below + 1) as nat, len as nat);
            }
        }
        self.selected = Some(
            if below == len - 1 {
                0
            } else {
                below + 1
            },
        );
    }

    pub fn page_up(&mut self, n: usize)
        ensures
            *final(self) == paged_up(*old(self), n as nat),
    {
        let i: usize = self.cursor();
        self.selected = Some(i.saturating_sub(n));
    }

    pub fn page_down(&mut self, build: &Build, n: usize)
        ensures
            *final(self) == paged_down(
                *old(self),
                visible(build@.diagnostics, old(self).errors_only).len(),
                n as nat,
            ),
    {
        let len: usize = self.visible_diagnostics(build).len();
        if len == 0 {
            return;
        }
        let i: usize = self.cursor();
        let target: usize = i.saturating_add(n);
        self.selected = Some(
            if target < len - 1 {
                target
            } else {
                len - 1
            },
        );
    }
}

/// A key that the user has pressed.
#[derive(Debug, Clone, Copy, PartialEq, Eq, Structural)]
pub enum KeyCode {
    Char(char),
    Up,
    Down,
    PageUp,
    PageDown,
    Home,
    End,
    Enter,
    Tab,
    Other,
}

/// A key, and whether the control key was down.
#[derive(Debug, Clone, Copy, PartialEq, Eq, Structural)]
pub struct Key {
    pub code: KeyCode,
    pub control: bool,
}

/// What is to be done about a key, besides the change of the screen.
#[derive(Debug)]
pub enum Action {
    Nothing,
    Quit,
    /// Open the place of a diagnostic in the editor.
    Open(Diagnostic),
    /// Run the build again.
    Rebuild,
}

pub enum ActionView {
    Nothing,
    Quit,
    Open(DiagnosticView),
    Rebuild,
}

impl View for Action {
    type V = ActionView;

    open spec fn view(&self) -> ActionView {
        match self {
            Action::Nothing => ActionView::Nothing,
            Action::Quit => ActionView::Quit,
            Action::Open(d) => ActionView::Open(d@),
            Action::Rebuild => ActionView::Rebuild,
        }
    }
}

/// What a page of the list is short of the height of its panel: the frame, and
/// two rows that stay in sight.
pub const PAGE_MARGIN: u16 = 4;

/// How far a page reaches in the list on a terminal of this height.
pub open spec fn page_len(height: u16) -> nat {
    if rows_of(height).main >= PAGE_MARGIN {
        (rows_of(height).main - PAGE_MARGIN) as nat
    } else {
        0
    }
}

/// A page of the log on a terminal of this height: as many lines as are shown.
pub open spec fn log_page(height: u16) -> nat {
    room(rows_of(height).main)
}

/// The first line of the last page of the log on a terminal of this height.
pub open spec fn last_page(build: BuildView, height: u16) -> nat {
    log_bottom(build.raw_lines.len(), log_page(height))
}

/// `n` up in the log, but not beyond its top. Where the place lies behind the
/// `last` page, that page is what is shown, and the move starts there.
pub open spec fn scrolled_up(app: App, last: nat, n: nat) -> App {
    let shown = if app.log_scroll <= last {
        app.log_scroll as nat
    } else {
        last
    };
    if shown >= n {
        App { log_scroll: (shown - n) as usize, ..app }
    } else {
        App { log_scroll: 0, ..app }
    }
}

/// `n` down in the log.
pub open spec fn scrolled_down(app: App, n: nat) -> App {
    if app.log_scroll + n <= usize::MAX {
        App { log_scroll: (app.log_scroll + n) as usize, ..app }
    } else {
        App { log_scroll: usize::MAX, ..app }
    }
}

/// The filter switched, and the selection back at the top of what it leaves.
pub open spec fn filter_toggled(app: App, build: BuildView) -> App {
    App {
        errors_only: !app.errors_only,
        selected: if visible(build.diagnostics, !app.errors_only).len() > 0 {
            Some(0)
        } else {
            None
        },
        ..app
    }
}

/// The other view; that of the log is entered at its end.
pub open spec fn view_toggled(app: App, build: BuildView) -> App {
    match app.view {
        Pane::Diagnostics => App {
            view: Pane::Log,
            log_scroll: build.raw_lines.len() as usize,
            ..app
        },
        Pane::Log => App { view: Pane::Diagnostics, ..app },
    }
}

pub open spec fn is_quit(key: Key) -> bool {
    key.code == KeyCode::Char('q') || (key.code == KeyCode::Char('c') && key.control)
}

/// The screen after a key.
pub open spec fn pressed(app: App, key: Key, height: u16, build: BuildView) -> App {
    let len = visible(build.diagnostics, app.errors_only).len();
    match key.code {
        KeyCode::Up => moved_up(app, len),
        KeyCode::Down => moved_down(app, len),
        KeyCode::PageUp => match app.view {
            Pane::Diagnostics => paged_up(app, page_len(height)),
            Pane::Log => scrolled_up(app, last_page(build, height), log_page(height)),
        },
        KeyCode::PageDown => match app.view {
            Pane::Diagnostics => paged_down(app, len, page_len(height)),
            Pane::Log => scrolled_down(app, log_page(height)),
        },
        KeyCode::Home => match app.view {
            Pane::Diagnostics => App { selected: Some(0), ..app },
            Pane::Log => App { log_scroll: 0, ..app },
        },
        KeyCode::End => match app.view {
            Pane::Diagnostics => if len > 0 {
                App { selected: Some((len - 1) as usize), ..app }
            } else {
                app
            },
            Pane::Log => App { log_scroll: build.raw_lines.len() as usize, ..app },
        },
        KeyCode::Tab => view_toggled(app, build),
        KeyCode::Char(c) => if c == 'k' {
            moved_up(app, len)
        } else if c == 'j' {
            moved_down(app, len)
        } else if c == 'f' {
            filter_toggled(app, build)
        } else {
            app
        },
        _ => app,
    }
}

/// What a key asks for besides.
pub open spec fn asked(app: App, key: Key, build: BuildView) -> ActionView {
    if is_quit(key) {
        ActionView::Quit
    } else if key.code == KeyCode::Char('r') {
        ActionView::Rebuild
    } else if key.code == KeyCode::Enter {
        match selection(app, build) {
            Some(d) => ActionView::Open(d),
            None => ActionView::Nothing,
        }
    } else {
        ActionView::Nothing
    }
}

impl App {
    fn toggle_filter(&mut self, build: &Build)
        ensures
            *final(self) == filter_toggled(*old(self), build@),
    {
        self.errors_only = !self.errors_only;
        let len: usize = self.visible_diagnostics(build).len();
        self.selected = if len > 0 {
            Some(0)
        } else {
            None
        };
    }

    fn toggle_view(&mut self, build: &Build)
        ensures
            *final(self) == view_toggled(*old(self), build@),
    {
        match self.view {
            Pane::Diagnostics => {
                self.log_scroll = build.raw_lines.len();
                self.view = Pane::Log;
            },
            Pane::Log => {
                self.view = Pane::Diagnostics;
            },
        }
    }

    fn select_last(&mut self, build: &Build)
        ensures
            *final(self) == (if visible(build@.diagnostics, old(self).errors_only).len() > 0 {
                App {
                    selected: Some(
                        (visible(build@.diagnostics, old(self).errors_only).len() - 1) as usize,
                    ),
                    ..*old(self)
                }
            } else {
                *old(self)
            }),
    {
        let len: usize = self.visible_diagnostics(build).len();
        if len > 0 {
            self.selected = Some(len - 1);
        }
    }

    fn page(height: u16) -> (res: usize)
        ensures
            res == page_len(height),
    {
        panel_rows(height).main.saturating_sub(PAGE_MARGIN) as usize
    }

    fn page_of_log(height: u16) -> (res: usize)
        ensures
            res == log_page(height),
    {
        panel_rows(height).main.saturating_sub(FRAME_ROWS) as usize
    }

    fn scroll_up(&mut self, height: u16, build: &Build)
        ensures
            *final(self) == scrolled_up(*old(self), last_page(build@, height), log_page(height)),
    {
        let n: usize = Self::page_of_log(height);
        let last: usize = build.raw_lines.len().saturating_sub(n);
        let shown: usize = if self.log_scroll <= last {
            self.log_scroll
        } else {
            last
        };
        self.log_scroll = shown.saturating_sub(n);
    }

    /// Reacts to a key on a terminal of this height.
    pub fn handle_key(&mut self, key: Key, height: u16, build: &Build) -> (res: Action)
        ensures
            *final(self) == pressed(*old(self), key, height, build@),
            res@ == asked(*old(self), key, build@),
    {
        match key.code {
            KeyCode::Up => self.move_up(build),
            KeyCode::Down => self.move_down(build),
            KeyCode::PageUp => match self.view {
                Pane::Diagnostics => self.page_up(Self::page(height)),
                Pane::Log => self.scroll_up(height, build),
            },
            KeyCode::PageDown => match self.view {
                Pane::Diagnostics => self.page_down(build, Self::page(height)),
                Pane::Log => {
                    self.log_scroll = self.log_scroll.saturating_add(Self::page_of_log(height));
                },
            },
            KeyCode::Home => match self.view {
                Pane::Diagnostics => {
                    self.selected = Some(0);
                },
                Pane::Log => {
                    self.log_scroll = 0;
                },
            },
            KeyCode::End => match self.view {
                Pane::Diagnostics => self.select_last(build),
                Pane::Log => {
                    self.log_scroll = build.raw_lines.len();
                },
            },
            KeyCode::Enter => {
                if let Some(diag) = self.selected_diagnostic(build) {
                    return Action::Open(diag);
                }
            },
            KeyCode::Tab => self.toggle_view(build),
            KeyCode::Char(c) => {
                if c == 'q' || (c == 'c' && key.control) {
                    return Action::Quit;
                } else if c == 'k' {
                    self.move_up(build);
                } else if c == 'j' {
                    self.move_down(build);
                } else if c == 'r' {
                    return Action::Rebuild;
                } else if c == 'f' {
                    self.toggle_filter(build);
                }
            },
            KeyCode::Other => {},
        }
        Action::Nothing
    }
}

/// The errors-only view holds the errors and nothing else; the other view holds
/// everything.
pub proof fn law_filter_keeps_errors(diagnostics: Seq<DiagnosticView>)
    ensures
        visible(diagnostics, false) == diagnostics,
        visible(diagnostics, true).len() <= diagnostics.len(),
        forall|i: int|
            0 <= i < visible(diagnostics, true).len() ==> is_error(
                #[trigger] visible(diagnostics, true)[i],
            ),
        forall|i: int|
            0 <= i < diagnostics.len() && is_error(diagnostics[i]) ==> visible(
                diagnostics,
                true,
            ).contains(#[trigger] diagnostics[i]),
{
    broadcast use vstd::seq_lib::group_filter_ensures;

    let pred = |d: DiagnosticView| is_error(d);
    assert forall|i: int| 0 <= i < visible(diagnostics, true).len() implies is_error(
        #[trigger] visible(diagnostics, true)[i],
    ) by {
        assert(pred(diagnostics.filter(pred)[i]));
    }
    assert forall|i: int| 0 <= i < diagnostics.len() && is_error(diagnostics[i]) implies visible(
        diagnostics,
        true,
    ).contains(#[trigger] diagnostics[i]) by {
        assert(pred(diagnostics[i]));
        assert(diagnostics.filter(pred).contains(diagnostics[i]));
    }
}

proof fn lemma_filter_continued(earlier: Seq<DiagnosticView>, later: Seq<DiagnosticView>)
    requires
        continued(earlier, later),
    ensures
        continued(visible(earlier, true), visible(later, true)),
        earlier.len() == later.len() ==> visible(earlier, true).len() == visible(later, true).len(),
    decreases later.len(),
{
    reveal(Seq::filter);
    if earlier.len() < later.len() {
        lemma_filter_continued(earlier, later.drop_last());
        assert forall|i: int| 0 <= i < visible(earlier, true).len() implies grown(
            visible(earlier, true)[i],
            #[trigger] visible(later, true)[i],
        ) by {
            assert(visible(later, true)[i] == visible(later.drop_last(), true)[i]);
        }
    } else if earlier.len() > 0 {
        assert forall|i: int| 0 <= i < earlier.drop_last().len() implies grown(
            earlier.drop_last()[i],
            #[trigger] later.drop_last()[i],
        ) by {
            assert(grown(earlier[i], later[i]));
        }
        lemma_filter_continued(earlier.drop_last(), later.drop_last());
        let last = earlier.len() - 1;
        assert(grown(earlier[last], later[last]));
        assert forall|i: int| 0 <= i < visible(earlier, true).len() implies grown(
            visible(earlier, true)[i],
            #[trigger] visible(later, true)[i],
        ) by {
            if i < visible(earlier.drop_last(), true).len() {
                assert(grown(
                    visible(earlier.drop_last(), true)[i],
                    visible(later.drop_last(), true)[i],
                ));
            }
        }
    }
}

/// While output comes in, the visible diagnostics keep their places.
pub proof fn law_visible_continues(
    earlier: Seq<DiagnosticView>,
    later: Seq<DiagnosticView>,
    errors_only: bool,
)
    requires
        continued(earlier, later),
    ensures
        continued(visible(earlier, errors_only), visible(later, errors_only)),
{
    lemma_filter_continued(earlier, later);
}

/// The selection points at a visible diagnostic, or at the top of the list.
pub open spec fn in_range(app: App, build: BuildView) -> bool {
    app.selected matches Some(i) ==> i == 0 || i < visible(
        build.diagnostics,
        app.errors_only,
    ).len()
}

/// A build that fits in memory.
pub open spec fn addressable(build: BuildView) -> bool {
    build.diagnostics.len() <= usize::MAX && build.raw_lines.len() <= usize::MAX
}

/// No key moves the selection out of the list.
pub proof fn law_keys_keep_selection_in_range(app: App, key: Key, height: u16, build: BuildView)
    requires
        in_range(app, build),
        addressable(build),
    ensures
        in_range(pressed(app, key, height, build), build),
{
    law_filter_keeps_errors(build.diagnostics);
}

/// A screen that starts, or starts over, has its selection in range.
pub proof fn law_restart_is_in_range(app: App, build: BuildView)
    ensures
        in_range(restarted(app), build),
{
}

/// Output does not move the selection: it stays in range, and on the same
/// diagnostic.
pub proof fn law_output_keeps_selection(app: App, earlier: BuildView, later: BuildView)
    requires
        continued(earlier.diagnostics, later.diagnostics),
    ensures
        in_range(app, earlier) ==> in_range(app, later),
        selection(app, earlier) matches Some(d) ==> (selection(app, later) matches Some(e) && grown(
            d,
            e,
        )),
{
    law_visible_continues(earlier.diagnostics, later.diagnostics, app.errors_only);
}

/// Where anything is visible and the selection is in range, Enter opens it.
pub proof fn law_enter_opens_selection(app: App, control: bool, build: BuildView)
    requires
        in_range(app, build),
        app.selected is Some,
        visible(build.diagnostics, app.errors_only).len() > 0,
    ensures
        asked(app, Key { code: KeyCode::Enter, control }, build) == ActionView::Open(
            visible(build.diagnostics, app.errors_only)[cursor(app) as int],
        ),
{
}

/// Up and down undo each other.
pub proof fn law_up_and_down_are_inverse(app: App, len: nat)
    requires
        app.selected matches Some(i) && i < len,
        len <= usize::MAX,
    ensures
        moved_up(moved_down(app, len), len) == app,
        moved_down(moved_up(app, len), len) == app,
{
    let i = cursor(app);
    if i + 1 < len {
        lemma_small_mod((i + 1) as nat, len);
    } else {
        lemma_mod_self_0(len as int);
    }
    if i == 0 {
        lemma_mod_self_0(len as int);
    } else {
        lemma_small_mod(i as nat, len);
    }
}

/// `n` times down.
pub open spec fn moved_down_by(app: App, len: nat, n: nat) -> App
    decreases n,
{
    if n == 0 {
        app
    } else {
        moved_down(moved_down_by(app, len, (n - 1) as nat), len)
    }
}

proof fn lemma_moved_down_by(app: App, len: nat, n: nat)
    requires
        app.selected matches Some(i) && i < len,
        len <= usize::MAX,
    ensures
        moved_down_by(app, len, n) == (App {
            selected: Some(((cursor(app) + n) % len as int) as usize),
            ..app
        }),
        0 <= (cursor(app) + n) % (len as int) < len,
    decreases n,
{
    if n == 0 {
        lemma_small_mod(cursor(app) as nat, len);
    } else {
        lemma_moved_down_by(app, len, (n - 1) as nat);
        lemma_add_mod_noop_right(1, cursor(app) + n - 1, len as int);
    }
}

/// As many times down as there are diagnostics goes round to the start.
pub proof fn law_down_goes_round(app: App, len: nat)
    requires
        app.selected matches Some(i) && i < len,
        len <= usize::MAX,
    ensures
        moved_down_by(app, len, len) == app,
{
    lemma_moved_down_by(app, len, len);
    lemma_add_mod_noop_right(cursor(app) as int, len as int, len as int);
    lemma_mod_self_0(len as int);
    lemma_small_mod(cursor(app) as nat, len);
}

/// A page up undoes a page down that the list has room for, and the same holds
/// of the log, up to its `last` page.
pub proof fn law_pages_are_inverse(app: App, len: nat, last: nat, n: nat)
    requires
        len <= usize::MAX,
        last <= usize::MAX,
    ensures
        app.selected is Some && cursor(app) + n < len ==> paged_up(paged_down(app, len, n), n)
            == app,
        app.log_scroll + n <= last ==> scrolled_up(scrolled_down(app, n), last, n) == app,
{
}

/// The keys that switch something switch it back the second time.
pub proof fn law_toggles_switch_back(app: App, control: bool, height: u16, build: BuildView)
    ensures
        ({
            let key = Key { code: KeyCode::Char('f'), control };
            pressed(pressed(app, key, height, build), key, height, build).errors_only
                == app.errors_only
        }),
        ({
            let key = Key { code: KeyCode::Tab, control };
            pressed(pressed(app, key, height, build), key, height, build).view == app.view
        }),
{
}

/// A key that quits, rebuilds or opens something leaves the screen as it is.
pub proof fn law_actions_leave_screen(app: App, key: Key, height: u16, build: BuildView)
    ensures
        asked(app, key, build) != ActionView::Nothing ==> pressed(app, key, height, build) == app,
{
}

/// The filter goes by the severity alone: whatever else a diagnostic holds, it
/// is in the errors-only view if and only if its severity is that of errors.
pub proof fn law_filter_goes_by_severity(diagnostics: Seq<DiagnosticView>)
    ensures
        forall|i: int|
            0 <= i < diagnostics.len() && diagnostics[i].severity == Severity::Error ==> visible(
                diagnostics,
                true,
            ).contains(#[trigger] diagnostics[i]),
        forall|i: int|
            0 <= i < visible(diagnostics, true).len() ==> (#[trigger] visible(
                diagnostics,
                true,
            )[i]).severity == Severity::Error && diagnostics.contains(visible(diagnostics, true)[i]),
        visible(diagnostics, false) == diagnostics,
{
    law_filter_keeps_errors(diagnostics);
    broadcast use vstd::seq_lib::group_filter_ensures;

    assert forall|i: int| 0 <= i < diagnostics.len() && diagnostics[i].severity
        == Severity::Error implies visible(diagnostics, true).contains(
        #[trigger] diagnostics[i],
    ) by {
        assert(is_error(diagnostics[i]));
    }
    assert forall|i: int| 0 <= i < visible(diagnostics, true).len() implies (#[trigger] visible(
        diagnostics,
        true,
    )[i]).severity == Severity::Error && diagnostics.contains(visible(diagnostics, true)[i]) by {
        assert(is_error(visible(diagnostics, true)[i]));
        lemma_visible_is_part(diagnostics, i);
    }
}

proof fn lemma_visible_is_part(diagnostics: Seq<DiagnosticView>, i: int)
    requires
        0 <= i < visible(diagnostics, true).len(),
    ensures
        diagnostics.contains(visible(diagnostics, true)[i]),
    decreases diagnostics.len(),
{
    reveal(Seq::filter);
    let rest = diagnostics.drop_last();
    if i < visible(rest, true).len() {
        lemma_visible_is_part(rest, i);
        assert(visible(diagnostics, true)[i] == visible(rest, true)[i]);
        let j = choose|j: int| 0 <= j < rest.len() && rest[j] == visible(rest, true)[i];
        assert(diagnostics[j] == rest[j]);
    } else {
        assert(diagnostics[diagnostics.len() - 1] == visible(diagnostics, true)[i]);
    }
}

/// A diagnostic that comes in is shown last, in either view, or not at all: it
/// is left out only of the errors-only view, and only if it is no error. Nothing
/// that was shown moves.
pub proof fn law_new_diagnostic_is_shown_last(
    diagnostics: Seq<DiagnosticView>,
    d: DiagnosticView,
    errors_only: bool,
)
    ensures
        visible(Seq::empty(), errors_only).len() == 0,
        visible(diagnostics.push(d), errors_only) == if !errors_only || d.severity
            == Severity::Error {
            visible(diagnostics, errors_only).push(d)
        } else {
            visible(diagnostics, errors_only)
        },
{
    reveal(Seq::filter);
    assert(diagnostics.push(d).drop_last() =~= diagnostics);
}

/// What is selected is what stands at that place of the list, and nothing else.
pub proof fn law_selection_is_what_is_shown_there(app: App, build: BuildView)
    ensures
        app.selected is None ==> selection(app, build) is None,
        app.selected matches Some(i) ==> {
            let shown = visible(build.diagnostics, app.errors_only);
            &&& i < shown.len() ==> selection(app, build) == Some(shown[i as int])
            &&& i >= shown.len() ==> selection(app, build) is None
        },
{
}

/// Up and down step by one through a list of any length and go round at its
/// ends; nothing but the selection changes.
pub proof fn law_steps_are_single(app: App, i: usize, len: nat)
    requires
        app.selected == Some(i),
        0 < len <= usize::MAX,
    ensures
        i + 1 < len ==> moved_down(app, len).selected == Some((i + 1) as usize),
        i + 1 == len ==> moved_down(app, len).selected == Some(0usize),
        moved_down(app, len).selected matches Some(j) && j < len,
        i > 0 ==> moved_up(app, len).selected == Some((i - 1) as usize),
        i == 0 ==> moved_up(app, len).selected == Some((len - 1) as usize),
        moved_up(app, len).log_scroll == app.log_scroll,
        moved_up(app, len).view == app.view,
        moved_up(app, len).errors_only == app.errors_only,
        moved_down(app, len).log_scroll == app.log_scroll,
        moved_down(app, len).view == app.view,
        moved_down(app, len).errors_only == app.errors_only,
{
    if i + 1 < len {
        lemma_small_mod((i + 1) as nat, len);
    } else if i + 1 == len {
        lemma_mod_self_0(len as int);
    }
}

/// In an empty list nothing moves, and without a selection a move starts at the
/// top.
pub proof fn law_moves_without_selection(app: App, len: nat, n: nat)
    requires
        len <= usize::MAX,
    ensures
        moved_up(app, 0) == app && moved_down(app, 0) == app && paged_down(app, 0, n) == app,
        app.selected is None ==> {
            let top = App { selected: Some(0), ..app };
            &&& len > 0 ==> moved_up(app, len) == moved_up(top, len)
            &&& len > 0 ==> moved_down(app, len) == moved_down(top, len)
            &&& len > 0 ==> paged_down(app, len, n) == paged_down(top, len, n)
            &&& paged_up(app, n) == paged_up(top, n)
        },
{
}

/// Pages move the selection by exactly their length, or to the end of the list
/// that they would pass; nothing but the selection changes.
pub proof fn law_pages_move_selection(app: App, i: usize, len: nat, n: nat)
    requires
        app.selected == Some(i),
        0 < len <= usize::MAX,
    ensures
        i + n < len ==> paged_down(app, len, n).selected == Some((i + n) as usize),
        i + n >= len ==> paged_down(app, len, n).selected == Some((len - 1) as usize),
        i >= n ==> paged_up(app, n).selected == Some((i - n) as usize),
        i < n ==> paged_up(app, n).selected == Some(0usize),
        paged_up(app, n).log_scroll == app.log_scroll,
        paged_up(app, n).view == app.view,
        paged_up(app, n).errors_only == app.errors_only,
        paged_down(app, len, n).log_scroll == app.log_scroll,
        paged_down(app, len, n).view == app.view,
        paged_down(app, len, n).errors_only == app.errors_only,
{
}

/// A page of the log is as long as what is shown of it, a page of the list two
/// rows shorter.
pub proof fn law_pages_fit_panel(height: u16)
    ensures
        rows_of(height).main >= 2 ==> log_page(height) + 2 == rows_of(height).main,
        rows_of(height).main < 2 ==> log_page(height) == 0,
        log_page(height) >= 2 ==> page_len(height) + 2 == log_page(height),
        log_page(height) < 2 ==> page_len(height) == 0,
{
}

/// In the view of the diagnostics, the keys for moving act on the selection
/// among what is shown and on nothing else.
pub proof fn law_keys_in_list(app: App, control: bool, height: u16, build: BuildView)
    requires
        app.view == Pane::Diagnostics,
    ensures
        ({
            let shown = visible(build.diagnostics, app.errors_only);
            let after = |code: KeyCode| pressed(app, Key { code, control }, height, build);
            &&& after(KeyCode::PageUp) == paged_up(app, page_len(height))
            &&& after(KeyCode::PageDown) == paged_down(app, shown.len(), page_len(height))
            &&& after(KeyCode::Home) == App { selected: Some(0), ..app }
            &&& shown.len() > 0 ==> after(KeyCode::End) == App {
                selected: Some((shown.len() - 1) as usize),
                ..app
            }
            &&& shown.len() == 0 ==> after(KeyCode::End) == app
            &&& after(KeyCode::Tab) == App {
                view: Pane::Log,
                log_scroll: build.raw_lines.len() as usize,
                ..app
            }
        }),
{
}

/// In the view of the log, the same keys act on the place in the log and on
/// nothing else.
pub proof fn law_keys_in_log(app: App, control: bool, height: u16, build: BuildView)
    requires
        app.view == Pane::Log,
        addressable(build),
    ensures
        ({
            let after = |code: KeyCode| pressed(app, Key { code, control }, height, build);
            let last = last_page(build, height);
            let shown: int = if app.log_scroll <= last {
                app.log_scroll as int
            } else {
                last as int
            };
            &&& after(KeyCode::PageUp) == App {
                log_scroll: after(KeyCode::PageUp).log_scroll,
                ..app
            }
            &&& after(KeyCode::PageUp).log_scroll == if shown >= log_page(height) {
                shown - log_page(height)
            } else {
                0
            }
            &&& after(KeyCode::PageDown) == App {
                log_scroll: after(KeyCode::PageDown).log_scroll,
                ..app
            }
            &&& app.log_scroll + log_page(height) <= usize::MAX ==> after(
                KeyCode::PageDown,
            ).log_scroll == app.log_scroll + log_page(height)
            &&& app.log_scroll + log_page(height) > usize::MAX ==> after(
                KeyCode::PageDown,
            ).log_scroll == usize::MAX
            &&& after(KeyCode::Home) == App { log_scroll: 0, ..app }
            &&& after(KeyCode::End) == App { log_scroll: build.raw_lines.len() as usize, ..app }
            &&& after(KeyCode::Tab) == App { view: Pane::Diagnostics, ..app }
        }),
{
}

/// In either view, the arrow keys and their letters mean the same, `f` switches
/// the filter and goes to the top of what it leaves, and no other key changes
/// anything.
pub proof fn law_keys_everywhere(app: App, control: bool, height: u16, build: BuildView)
    ensures
        ({
            let len = visible(build.diagnostics, app.errors_only).len();
            let other = visible(build.diagnostics, !app.errors_only).len();
            let after = |code: KeyCode| pressed(app, Key { code, control }, height, build);
            &&& after(KeyCode::Up) == moved_up(app, len)
            &&& after(KeyCode::Char('k')) == moved_up(app, len)
            &&& after(KeyCode::Down) == moved_down(app, len)
            &&& after(KeyCode::Char('j')) == moved_down(app, len)
            &&& after(KeyCode::Char('f')).errors_only != app.errors_only
            &&& other > 0 ==> after(KeyCode::Char('f')).selected == Some(0usize)
            &&& other == 0 ==> after(KeyCode::Char('f')).selected is None
            &&& after(KeyCode::Char('f')).view == app.view
            &&& after(KeyCode::Char('f')).log_scroll == app.log_scroll
            &&& after(KeyCode::Enter) == app && after(KeyCode::Other) == app
            &&& forall|c: char|
                c != 'k' && c != 'j' && c != 'f' ==> #[trigger] pressed(
                    app,
                    Key { code: KeyCode::Char(c), control },
                    height,
                    build,
                ) == app
        }),
{
}

/// `q` quits, and so does `c` with the control key; `r` builds again; Enter opens
/// what is selected; no other key asks for anything.
pub proof fn law_keys_that_ask(app: App, key: Key, build: BuildView)
    ensures
        asked(app, key, build) == ActionView::Quit <==> key.code == KeyCode::Char('q') || (key.code
            == KeyCode::Char('c') && key.control),
        asked(app, key, build) == ActionView::Rebuild <==> key.code == KeyCode::Char('r'),
        forall|d: DiagnosticView|
            asked(app, key, build) == ActionView::Open(d) <==> key.code == KeyCode::Enter
                && #[trigger] is_selected(app, build, d),
{
}

/// `d` is the diagnostic at the selected place of what is shown.
pub open spec fn is_selected(app: App, build: BuildView, d: DiagnosticView) -> bool {
    let shown = visible(build.diagnostics, app.errors_only);
    app.selected matches Some(i) && i < shown.len() && shown[i as int] == d
}

/// A new build is looked at from the top, through the same view and filter.
pub proof fn law_restart_goes_to_top(app: App)
    ensures
        restarted(app).selected == Some(0usize),
        restarted(app).log_scroll == 0,
        restarted(app).view == app.view,
        restarted(app).errors_only == app.errors_only,
{
}

/// The view of an action tells which it is, and what it opens.
pub proof fn law_action_view_is_whole(action: Action)
    ensures
        action is Nothing <==> action@ is Nothing,
        action is Quit <==> action@ is Quit,
        action is Rebuild <==> action@ is Rebuild,
        action matches Action::Open(d) ==> action@ == ActionView::Open(d@),
{
}

} // verus!
