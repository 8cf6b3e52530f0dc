//! The screen of a client, which shows what a progress server sends.

use crate::log_lines;
use crate::log_lines::{LineView, LogLines, ProgressLogLine, MAX_LOG_LINES};
use crate::message::{Severity, TuiMessage};
use crate::progress_tui_logger;
use crate::progress_tui_protocol;
use crate::progress_tui_protocol::{
    ProgressClientMessage, ProgressServerMessage, ProgressStats, StatsView, DEFAULT_WINDOW_NAME,
    SERVER_DISCONNECTED_HINT,
};
use crate::screen;
use crate::screen::{
    Body, BodyView, Rect, SizeRule, TopWindows, Widget, WidgetView, MAX_SCREEN_WIDTH,
};
use crate::screen_input::{Key, ScreenEvent};
use crate::screen_layout;
use crate::screen_layout::ScreenAreas;
use crate::text;
use crate::text::CharSet;
use vstd::prelude::*;

verus! {

/// How often the screen is drawn if nothing else is asked for, in milliseconds.
pub const DEFAULT_REDRAW_INTERVAL_MS: u64 = 100;

/// The title of the line in which commands are typed.
pub const COMMAND_TITLE: &'static str = "Command (Enter to send, Esc to clear, Ctrl+C to exit)";

/// What a client shows.
#[derive(Debug)]
pub struct ProgressScreenState {
    pub stats: ProgressStats,
    pub log_lines: LogLines,
    pub windows: TopWindows,
    pub command_input: String,
}

/// The windows after a line was added to the log: a window that is scrolled up stays on its
/// lines.
pub open spec fn windows_after_line(windows: TopWindows) -> TopWindows {
    TopWindows {
        log_scroll_from_bottom: if windows.log_scroll_from_bottom > 0 {
            screen::capped_count(windows.log_scroll_from_bottom, 1)
        } else {
            0
        },
        ..windows
    }
}

/// The log lines after a message.
pub open spec fn lines_after(lines: Seq<LineView>, message: TuiMessage) -> Seq<LineView> {
    match message {
        TuiMessage::Line { .. } => log_lines::latest(
            lines + progress_tui_logger::lines_of(message),
            MAX_LOG_LINES as nat,
        ),
        _ => lines,
    }
}

impl ProgressScreenState {
    pub open spec fn wf(self) -> bool {
        &&& self.stats.wf()
        &&& self.log_lines.wf()
    }

    /// The screen before anything came from the server.
    pub fn new() -> (r: ProgressScreenState)
        ensures
            r.wf(),
            r.stats@ == StatsView::initial(DEFAULT_WINDOW_NAME@, SERVER_DISCONNECTED_HINT@),
            r.log_lines@ == Seq::<LineView>::empty(),
            r.windows == TopWindows::initial(),
            r.command_input@ == Seq::<char>::empty(),
    {
        let r = ProgressScreenState {
            stats: ProgressStats::initial(DEFAULT_WINDOW_NAME, SERVER_DISCONNECTED_HINT),
            log_lines: LogLines::new(),
            windows: TopWindows::new(),
            command_input: String::new(),
        };
        assert(r.command_input@ =~= Seq::<char>::empty());
        r
    }

    /// Shows a snapshot of the server's state.
    pub fn apply_snapshot(&mut self, snapshot: ProgressStats)
        requires
            old(self).wf(),
            snapshot.wf(),
        ensures
            final(self).wf(),
            final(self).stats == snapshot,
            final(self).log_lines == old(self).log_lines,
            final(self).windows == old(self).windows,
            final(self).command_input == old(self).command_input,
    {
        self.stats = snapshot;
    }

    /// Takes a message from the server.
    pub fn handle_message(&mut self, message: TuiMessage)
        requires
            old(self).wf(),
            message.in_range(),
        ensures
            final(self).wf(),
            final(self).stats@ == old(self).stats@.applied(message),
            final(self).log_lines@ == lines_after(old(self).log_lines@, message),
            final(self).windows == (if message is Line {
                windows_after_line(old(self).windows)
            } else {
                old(self).windows
            }),
            final(self).command_input == old(self).command_input,
    {
        match message {
            TuiMessage::Line { message: line, severity } => {
                self.push_log_line(line, severity);
            },
            other => {
                self.stats.apply_message(&other);
            },
        }
    }

    fn push_log_line(&mut self, message: String, severity: Severity)
        requires
            old(self).wf(),
        ensures
            final(self).wf(),
            final(self).stats == old(self).stats,
            final(self).log_lines@ == log_lines::latest(
                old(self).log_lines@ + seq![LineView { message: message@, severity }],
                MAX_LOG_LINES as nat,
            ),
            final(self).windows == windows_after_line(old(self).windows),
            final(self).command_input == old(self).command_input,
    {
        if self.windows.log_scroll_from_bottom > 0 {
            self.windows.log_scroll_from_bottom =
            self.windows.log_scroll_from_bottom.saturating_add(1);
        }
        let ghost line = LineView { message: message@, severity };
        assert(self.log_lines@.push(line) =~= self.log_lines@ + seq![line]);
        self.log_lines.push(ProgressLogLine { message, severity });
    }

    /// Takes what was read from the server: a message, or the end of the connection. Returns
    /// whether the server is gone.
    pub fn take_server_message(&mut self, message: Option<ProgressServerMessage>) -> (gone: bool)
        requires
            old(self).wf(),
            message matches Some(ProgressServerMessage::Snapshot(s)) ==> s.wf(),
            message matches Some(ProgressServerMessage::Update(m)) ==> m.in_range(),
        ensures
            final(self).wf(),
            gone == (message is None),
            final(self).command_input == old(self).command_input,
            match message {
                Some(ProgressServerMessage::Snapshot(snapshot)) => {
                    &&& final(self).stats == snapshot
                    &&& final(self).log_lines == old(self).log_lines
                    &&& final(self).windows == old(self).windows
                },
                Some(ProgressServerMessage::Update(m)) => {
                    &&& final(self).stats@ == old(self).stats@.applied(m)
                    &&& final(self).log_lines@ == lines_after(old(self).log_lines@, m)
                    &&& final(self).windows == (if m is Line {
                        windows_after_line(old(self).windows)
                    } else {
                        old(self).windows
                    })
                },
                None => *final(self) == *old(self),
            },
    {
        match message {
            Some(ProgressServerMessage::Snapshot(snapshot)) => {
                self.apply_snapshot(snapshot);
                false
            },
            Some(ProgressServerMessage::Update(m)) => {
                self.handle_message(m);
                false
            },
            None => true,
        }
    }
}

/// A client that gets a snapshot and then every update shows what the server holds, whenever the
/// snapshot was taken.
pub proof fn snapshot_and_updates_suffice(stats: StatsView, messages: Seq<TuiMessage>, taken: int)
    requires
        0 <= taken <= messages.len(),
    ensures
        progress_tui_protocol::after_messages(
            progress_tui_protocol::after_messages(stats, messages.take(taken)),
            messages.skip(taken),
        ) == progress_tui_protocol::after_messages(stats, messages),
    decreases messages.len(),
{
    if taken == messages.len() {
        assert(messages.take(taken) =~= messages);
        assert(messages.skip(taken) =~= Seq::<TuiMessage>::empty());
    } else {
        let init = messages.drop_last();
        snapshot_and_updates_suffice(stats, init, taken);
        assert(init.take(taken) =~= messages.take(taken));
        assert(messages.skip(taken).drop_last() =~= init.skip(taken));
        assert(messages.skip(taken).last() == messages.last());
    }
}

// ---------------------------------------------------------------------------
// Input
// ---------------------------------------------------------------------------

/// What the user asked for since the last redraw.
#[derive(Debug)]
pub struct InputActions {
    pub quit: bool,
    pub commands: Vec<String>,
}

impl InputActions {
    pub open spec fn sent(self) -> Seq<Seq<char>> {
        text::texts(self.commands@)
    }

    pub fn none() -> (r: InputActions)
        ensures
            !r.quit,
            r.sent() == Seq::<Seq<char>>::empty(),
    {
        let r = InputActions { quit: false, commands: Vec::new() };
        assert(r.sent() =~= Seq::<Seq<char>>::empty());
        r
    }
}

/// What a client does with the user's actions.
#[derive(Debug)]
pub enum ClientPlan {
    Quit,
    /// Send the commands in order, then draw or not.
    Go { commands: Vec<String>, draw: bool },
}

/// What is done with the user's actions: quitting drops the commands that came before it, and the
/// screen is drawn only where the redraw is due.
pub fn client_plan(actions: InputActions, tick: bool) -> (r: ClientPlan)
    ensures
        actions.quit ==> r is Quit,
        !actions.quit ==> {
            &&& r is Go
            &&& text::texts(r->commands@) == actions.sent()
            &&& r->draw == tick
        },
{
    if actions.quit {
        ClientPlan::Quit
    } else {
        ClientPlan::Go { commands: actions.commands, draw: tick }
    }
}

/// The message with which a client begins: it asks for what the server holds.
pub fn first_message() -> (r: ProgressClientMessage)
    ensures
        r == ProgressClientMessage::SnapshotRequest,
{
    ProgressClientMessage::SnapshotRequest
}

/// The message that sends a command.
pub fn command_message(command: String) -> (r: ProgressClientMessage)
    ensures
        r == (ProgressClientMessage::SubmitCommand { command }),
{
    ProgressClientMessage::SubmitCommand { command }
}

/// The command that the enter key sends, if the input holds one.
pub open spec fn command_of(input: Seq<char>) -> Seq<Seq<char>> {
    let command = text::trimmed(input, CharSet::WhiteSpace);
    if command.len() == 0 {
        Seq::empty()
    } else {
        seq![command]
    }
}

/// The input line after an event.
pub open spec fn input_after(input: Seq<char>, event: ScreenEvent) -> Seq<char> {
    match event {
        ScreenEvent::Key(key) => if !key.pressed || key.control_quit() {
            input
        } else {
            match key.code {
                Key::Enter => Seq::empty(),
                Key::Esc => Seq::empty(),
                Key::Backspace => if input.len() == 0 {
                    input
                } else {
                    input.drop_last()
                },
                Key::Char(c) => if key.control || key.alt {
                    input
                } else {
                    input.push(c)
                },
                _ => input,
            }
        },
        _ => input,
    }
}

/// The commands that an event sends.
pub open spec fn commands_of(input: Seq<char>, event: ScreenEvent) -> Seq<Seq<char>> {
    match event {
        ScreenEvent::Key(key) => if key.pressed && key.code == Key::Enter {
            command_of(input)
        } else {
            Seq::empty()
        },
        _ => Seq::empty(),
    }
}

/// The windows after an event.
pub open spec fn windows_after(windows: TopWindows, event: ScreenEvent) -> TopWindows {
    match event {
        ScreenEvent::ScrollUp { x, y } => windows.scrolled_up(x, y, 1),
        ScreenEvent::ScrollDown { x, y } => windows.scrolled_down(x, y, 1),
        _ => windows,
    }
}

/// Takes one event. Returns whether the user wants to quit: then no further event is taken.
pub fn take_event(
    state: &mut ProgressScreenState,
    actions: &mut InputActions,
    event: ScreenEvent,
) -> (r: bool)
    ensures
        r == (event is Key && event->Key_0.control_quit()),
        final(actions).quit == (old(actions).quit || r),
        final(actions).sent() == old(actions).sent() + commands_of(
            old(state).command_input@,
            event,
        ),
        final(state).command_input@ == input_after(old(state).command_input@, event),
        final(state).windows == windows_after(old(state).windows, event),
        final(state).stats == old(state).stats,
        final(state).log_lines == old(state).log_lines,
{
    let ghost before = *actions;
    let ghost input = state.command_input@;
    match event {
        ScreenEvent::Key(key) => {
            if !key.pressed {
                assert(actions.sent() =~= before.sent() + commands_of(input, event));
                return false;
            }
            if key.is_control_quit() {
                actions.quit = true;
                assert(actions.sent() =~= before.sent() + commands_of(input, event));
                return true;
            }
            match key.code {
                Key::Enter => {
                    let command = text::trim(state.command_input.as_str(), CharSet::WhiteSpace);
                    if !command.as_str().is_empty() {
                        let ghost sent = actions.commands@;
                        actions.commands.push(command);
                        assert(actions.sent() =~= text::texts(sent).push(command@));
                    }
                    state.command_input = String::new();
                },
                Key::Backspace => {
                    let _ = state.command_input.pop();
                },
                Key::Esc => {
                    state.command_input = String::new();
                },
                Key::Char(c) => {
                    if !key.control && !key.alt {
                        state.command_input.push(c);
                    }
                },
                _ => {},
            }
        },
        ScreenEvent::ScrollUp { x, y } => {
            state.windows.scroll_top_window_up(x, y, 1);
        },
        ScreenEvent::ScrollDown { x, y } => {
            state.windows.scroll_top_window_down(x, y, 1);
        },
        ScreenEvent::Other => {},
    }
    assert(actions.sent() =~= before.sent() + commands_of(input, event));
    assert(state.command_input@ =~= input_after(input, event));
    false
}

// ---------------------------------------------------------------------------
// Drawing
// ---------------------------------------------------------------------------

/// What is asked of the bottom of the screen: a place for the hint that the server is gone, and
/// the line in which commands are typed.
pub open spec fn bottom_rules(server_disconnected: bool) -> Seq<SizeRule> {
    seq![
        SizeRule::Length(
            if server_disconnected {
                3
            } else {
                0
            },
        ),
        SizeRule::Length(3),
    ]
}

/// The hint that the server is gone.
pub open spec fn hint_widget(hint: Seq<char>, area: Rect) -> WidgetView {
    WidgetView::Paragraph {
        body: BodyView::Text(hint),
        title: Some("Disconnected"@),
        scroll: 0,
        trim: None,
        area,
    }
}

/// The line in which commands are typed.
pub open spec fn command_widget(input: Seq<char>, area: Rect) -> WidgetView {
    WidgetView::Paragraph {
        body: BodyView::Text(input),
        title: Some(COMMAND_TITLE@),
        scroll: 0,
        trim: None,
        area,
    }
}

/// The widgets at the bottom of the screen.
pub open spec fn bottom_widgets(
    state: ProgressScreenState,
    server_disconnected: bool,
    main: Seq<Rect>,
) -> Seq<WidgetView> {
    if server_disconnected {
        seq![
            hint_widget(state.stats@.exit_hint, main[3]),
            command_widget(state.command_input@, main[4]),
        ]
    } else {
        seq![command_widget(state.command_input@, main[3])]
    }
}

/// The widgets of the screen, once its windows are fitted to their areas and rows.
pub open spec fn client_widgets(
    state: ProgressScreenState,
    server_disconnected: bool,
    areas: ScreenAreas,
    stats_rows: usize,
    log_rows: usize,
) -> Seq<WidgetView> {
    screen_layout::upper_widgets(
        state.windows,
        state.stats,
        state.log_lines@,
        areas,
        stats_rows,
        log_rows,
    ) + bottom_widgets(state, server_disconnected, areas.main@)
}

/// How the screen changes when it is drawn.
pub open spec fn drawn(
    before: ProgressScreenState,
    after: ProgressScreenState,
    areas: ScreenAreas,
    stats_rows: usize,
    log_rows: usize,
) -> bool {
    after == (ProgressScreenState {
        windows: screen_layout::top_fitted(before.windows, areas, stats_rows, log_rows),
        ..before
    })
}

/// Builds the screen in given areas, for given numbers of rows of its two windows.
pub fn compose(
    state: &mut ProgressScreenState,
    server_disconnected: bool,
    areas: &ScreenAreas,
    stats_rows: usize,
    log_rows: usize,
) -> (widgets: Vec<Widget>)
    requires
        old(state).wf(),
        areas.main@.len() == 5,
        areas.top@.len() == 2,
        areas.left@.len() == 2,
        areas.workers@.len() == old(state).stats.worker_progress.keys().len(),
    ensures
        final(state).wf(),
        drawn(*old(state), *final(state), *areas, stats_rows, log_rows),
        screen::widget_views(widgets@) == client_widgets(
            *final(state),
            server_disconnected,
            *areas,
            stats_rows,
            log_rows,
        ),
{
    let mut windows = state.windows;
    let mut widgets = screen_layout::compose_upper(
        &mut windows,
        &state.stats,
        &state.log_lines,
        areas,
        stats_rows,
        log_rows,
    );
    state.windows = windows;
    let ghost upper = screen::widget_views(widgets@);
    if server_disconnected {
        widgets.push(
            Widget::Paragraph {
                body: Body::Text(state.stats.exit_hint.clone()),
                title: Some("Disconnected".to_owned()),
                scroll: 0,
                trim: None,
                area: areas.main[3],
            },
        );
    }
    let command_area = if server_disconnected {
        areas.main[4]
    } else {
        areas.main[3]
    };
    widgets.push(
        Widget::Paragraph {
            body: Body::Text(state.command_input.clone()),
            title: Some(COMMAND_TITLE.to_owned()),
            scroll: 0,
            trim: None,
            area: command_area,
        },
    );
    assert(screen::widget_views(widgets@) =~= upper + bottom_widgets(
        *state,
        server_disconnected,
        areas.main@,
    ));
    widgets
}

/// Divides the screen and builds it. How the screen is divided is up to the layout; everything
/// else follows from that.
pub fn draw(state: &mut ProgressScreenState, server_disconnected: bool, area: Rect) -> (r: (
    Vec<Widget>,
    ScreenAreas,
))
    requires
        old(state).wf(),
        screen::worker_rows_fit(old(state).stats.worker_progress.keys().len()),
        area.width <= MAX_SCREEN_WIDTH,
    ensures
        final(state).wf(),
        r.1.of(
            area,
            bottom_rules(server_disconnected),
            !text::blank(old(state).stats@.state),
            old(state).stats.worker_progress.keys().len(),
        ),
        ({
            let stats_rows = screen::rows_inside(
                screen_layout::stats_lines(old(state).stats),
                r.1.stats_area(),
                false,
            );
            let log_rows = screen::rows_inside(
                screen::rendered_log(old(state).log_lines@),
                r.1.log_area(),
                false,
            );
            &&& drawn(*old(state), *final(state), r.1, stats_rows as usize, log_rows as usize)
            &&& screen::widget_views(r.0@) == client_widgets(
                *final(state),
                server_disconnected,
                r.1,
                stats_rows as usize,
                log_rows as usize,
            )
        }),
{
    let mut bottom: Vec<SizeRule> = Vec::new();
    bottom.push(
        SizeRule::Length(
            if server_disconnected {
                3
            } else {
                0
            },
        ),
    );
    bottom.push(SizeRule::Length(3));
    assert(bottom@ =~= bottom_rules(server_disconnected));
    let state_has_text = !text::is_blank(state.stats.state.as_str());
    let areas = screen_layout::split_screen(
        area,
        &bottom,
        state_has_text,
        state.stats.worker_progress.len(),
    );
    let stats_rows: usize = screen_layout::stats_row_count(&state.stats, &areas);
    let log_rows: usize = screen_layout::log_row_count(&state.log_lines, &areas);
    let widgets = compose(state, server_disconnected, &areas, stats_rows, log_rows);
    (widgets, areas)
}

// ---------------------------------------------------------------------------
// Laws
// ---------------------------------------------------------------------------

/// A key that goes down with nothing held.
pub open spec fn plain_press(code: Key) -> ScreenEvent {
    ScreenEvent::Key(
        crate::screen_input::KeyEvent { code, pressed: true, control: false, alt: false },
    )
}

/// A character that is typed.
pub open spec fn typed_char(c: char) -> ScreenEvent {
    plain_press(Key::Char(c))
}

/// The input line after a series of events.
pub open spec fn input_after_all(input: Seq<char>, events: Seq<ScreenEvent>) -> Seq<char>
    decreases events.len(),
{
    if events.len() == 0 {
        input
    } else {
        input_after(input_after_all(input, events.drop_last()), events.last())
    }
}

/// The events of typing a text.
pub open spec fn typing(typed: Seq<char>) -> Seq<ScreenEvent> {
    typed.map_values(|c: char| typed_char(c))
}

/// What is typed stands at the end of the input line, character by character.
pub proof fn typed_text_is_appended(input: Seq<char>, typed: Seq<char>)
    ensures
        input_after_all(input, typing(typed)) == input + typed,
    decreases typed.len(),
{
    if typed.len() == 0 {
        assert(input + typed =~= input);
    } else {
        typed_text_is_appended(input, typed.drop_last());
        let less = typed.drop_last();
        assert(typing(typed).drop_last() =~= typing(less));
        assert(typing(typed).last() == plain_press(Key::Char(typed.last())));
        assert((input + typed.drop_last()).push(typed.last()) =~= input + typed);
    }
}

/// A text that is typed into an empty line and sent arrives as one command, without the white
/// space around it; the line is then empty. A line of white space sends nothing.
pub proof fn typed_commands_are_sent(before: Seq<char>, command: Seq<char>, after: Seq<char>)
    requires
        text::all_in(before, CharSet::WhiteSpace),
        text::all_in(after, CharSet::WhiteSpace),
        text::bare(command, CharSet::WhiteSpace),
    ensures
        ({
            let line = input_after_all(Seq::empty(), typing(before + command + after));
            &&& commands_of(line, plain_press(Key::Enter)) == (if command.len() == 0 {
                Seq::<Seq<char>>::empty()
            } else {
                seq![command]
            })
            &&& input_after(line, plain_press(Key::Enter)) == Seq::<char>::empty()
        }),
{
    let typed = before + command + after;
    typed_text_is_appended(Seq::empty(), typed);
    assert(Seq::<char>::empty() + typed =~= typed);
    text::trimming_drops_the_margins(before, command, after, CharSet::WhiteSpace);
}

/// The backspace key undoes the last character; on an empty line it does nothing.
pub proof fn backspace_undoes_typing(input: Seq<char>, c: char)
    ensures
        input_after(
            input_after(input, plain_press(Key::Char(c))),
            plain_press(Key::Backspace),
        ) == input,
        input_after(Seq::empty(), plain_press(Key::Backspace)) == Seq::<char>::empty(),
{
    assert(input.push(c).drop_last() =~= input);
}

/// The escape key empties the line, and sends nothing.
pub proof fn escape_empties_the_line(input: Seq<char>)
    ensures
        input_after(input, plain_press(Key::Esc)) == Seq::<char>::empty(),
        commands_of(input, plain_press(Key::Esc)) == Seq::<Seq<char>>::empty(),
{
}

/// Only the enter key sends. What is no key that goes down changes nothing, nor does a character
/// with the control or alt key held, nor a key that stands for nothing here.
pub proof fn other_events_keep_the_line(input: Seq<char>, event: ScreenEvent)
    ensures
        !(event is Key) ==> input_after(input, event) == input,
        event is Key && !event->Key_0.pressed ==> input_after(input, event) == input,
        event is Key && event->Key_0.code is Char && (event->Key_0.control || event->Key_0.alt)
            ==> input_after(input, event) == input,
        event is Key && (event->Key_0.code == Key::Left || event->Key_0.code == Key::Right
            || event->Key_0.code == Key::Other) ==> input_after(input, event) == input,
        !(event is Key && event->Key_0.pressed && event->Key_0.code == Key::Enter) ==> commands_of(
            input,
            event,
        ) == Seq::<Seq<char>>::empty(),
{
}

/// The wheel scrolls by one row and back; nothing else scrolls.
pub proof fn the_wheel_scrolls_by_one(windows: TopWindows, x: u16, y: u16, event: ScreenEvent)
    requires
        windows.stats_scroll_from_bottom < usize::MAX,
        windows.log_scroll_from_bottom < usize::MAX,
    ensures
        ({
            let up = windows_after(windows, ScreenEvent::ScrollUp { x, y });
            &&& windows_after(up, ScreenEvent::ScrollDown { x, y }) == windows
            &&& windows.stats_area.holds(x, y) ==> up.stats_scroll_from_bottom
                == windows.stats_scroll_from_bottom + 1
            &&& !windows.stats_area.holds(x, y) && windows.log_area.holds(x, y)
                ==> up.log_scroll_from_bottom == windows.log_scroll_from_bottom + 1
        }),
        !(event is ScrollUp) && !(event is ScrollDown) ==> windows_after(windows, event)
            == windows,
{
    screen::the_wheel_scrolls_the_window_under_the_mouse(windows, x, y, 1);
}

/// A log that is scrolled up shows the same lines after one more came; one that is not follows the
/// log.
pub proof fn a_scrolled_log_stands_still(windows: TopWindows, total: int)
    requires
        total >= 0,
        windows.log_viewport_height >= 1,
        windows.log_scroll_from_bottom < usize::MAX,
    ensures
        ({
            let after = windows_after_line(windows);
            let height = windows.log_viewport_height as int;
            &&& windows.log_scroll_from_bottom > 0 && windows.log_scroll_from_bottom + height
                <= total ==> screen::window_start(
                total + 1,
                height,
                after.log_scroll_from_bottom as int,
            ) == total - height - windows.log_scroll_from_bottom
            &&& windows.log_scroll_from_bottom == 0 && height <= total ==> screen::window_end(
                total + 1,
                height,
                after.log_scroll_from_bottom as int,
            ) == total + 1
            &&& after.stats_scroll_from_bottom == windows.stats_scroll_from_bottom
            &&& after.log_viewport_height == windows.log_viewport_height
            &&& after.log_area == windows.log_area
            &&& after.stats_area == windows.stats_area
        }),
{
}

/// A line from the server is the last one shown; of the lines before it the latest stay, a hundred
/// in all. Other messages add no line.
pub proof fn lines_are_kept_as_they_come(lines: Seq<LineView>, message: TuiMessage, i: int)
    requires
        lines.len() <= 100,
    ensures
        ({
            let after = lines_after(lines, message);
            &&& !(message is Line) ==> after == lines
            &&& message is Line ==> {
                &&& after.len() == (if lines.len() < 100 {
                    lines.len() + 1
                } else {
                    100
                })
                &&& after.last().message == message->Line_message@
                &&& after.last().severity == message->Line_severity
                &&& 1 <= i < after.len() ==> after[after.len() - 1 - i] == lines[lines.len() - i]
            }
        }),
{
    if message is Line {
        let all = lines + progress_tui_logger::lines_of(message);
        assert(progress_tui_logger::lines_of(message).len() == 1);
        log_lines::the_last_hundred_stay(all, i);
        log_lines::the_last_hundred_stay(all, 0);
    }
}

/// The line in which commands are typed is always there, at the bottom of the screen. The hint
/// stands above it once the server is gone, and only then.
pub proof fn the_hint_is_shown_when_the_server_is_gone(
    state: ProgressScreenState,
    areas: ScreenAreas,
    stats_rows: usize,
    log_rows: usize,
)
    requires
        state.wf(),
    ensures
        ({
            let gone = client_widgets(state, true, areas, stats_rows, log_rows);
            let there = client_widgets(state, false, areas, stats_rows, log_rows);
            &&& gone.len() == there.len() + 1
            &&& gone.take(there.len() - 1) == there.take(there.len() - 1)
            &&& gone[gone.len() - 2] == (WidgetView::Paragraph {
                body: BodyView::Text(state.stats@.exit_hint),
                title: Some("Disconnected"@),
                scroll: 0,
                trim: None,
                area: areas.main@[3],
            })
            &&& gone.last() == (WidgetView::Paragraph {
                body: BodyView::Text(state.command_input@),
                title: Some("Command (Enter to send, Esc to clear, Ctrl+C to exit)"@),
                scroll: 0,
                trim: None,
                area: areas.main@[4],
            })
            &&& there.last() == (WidgetView::Paragraph {
                body: BodyView::Text(state.command_input@),
                title: Some("Command (Enter to send, Esc to clear, Ctrl+C to exit)"@),
                scroll: 0,
                trim: None,
                area: areas.main@[3],
            })
        }),
        bottom_rules(true) == seq![SizeRule::Length(3), SizeRule::Length(3)],
        bottom_rules(false) == seq![SizeRule::Length(0), SizeRule::Length(3)],
{
    let gone = client_widgets(state, true, areas, stats_rows, log_rows);
    let there = client_widgets(state, false, areas, stats_rows, log_rows);
    assert(gone.take(there.len() - 1) =~= there.take(there.len() - 1));
}

/// Drawing moves the windows to their areas and changes nothing else.
pub proof fn drawing_changes_only_the_windows(
    before: ProgressScreenState,
    after: ProgressScreenState,
    areas: ScreenAreas,
    stats_rows: usize,
    log_rows: usize,
)
    requires
        drawn(before, after, areas, stats_rows, log_rows),
    ensures
        after.stats == before.stats,
        after.log_lines == before.log_lines,
        after.command_input == before.command_input,
        after.windows.stats_area == areas.left@[1],
        after.windows.log_area == areas.top@[1],
        after.windows.stats_scroll_from_bottom <= before.windows.stats_scroll_from_bottom,
        after.windows.log_scroll_from_bottom <= before.windows.log_scroll_from_bottom,
{
}

/// The screen is drawn ten times a second.
pub proof fn redraws_come_ten_times_a_second()
    ensures
        DEFAULT_REDRAW_INTERVAL_MS * 10 == 1000,
{
}

/// The enter, escape and backspace keys do the same whatever keys are held with them.
pub proof fn held_keys_change_nothing_of_these(
    input: Seq<char>,
    key: crate::screen_input::KeyEvent,
)
    requires
        key.pressed,
        key.code == Key::Enter || key.code == Key::Esc || key.code == Key::Backspace,
    ensures
        input_after(input, ScreenEvent::Key(key)) == input_after(input, plain_press(key.code)),
        commands_of(input, ScreenEvent::Key(key)) == commands_of(input, plain_press(key.code)),
{
}

}
