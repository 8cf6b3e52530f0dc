//! The screen of a reader, which plays a progress log back.

use crate::decimal;
use crate::progress_tui_logger;
use crate::replay_engine::{InputActions, PlaybackStatus, RefreshResult};
use crate::replay_state::{ReplayFrameState, ReplayView};
use crate::screen;
use crate::screen::{
    Body, BodyView, Colour, Rect, ScreenLine, ScreenLineView, SizeRule, TopWindows, Widget,
    WidgetView, MAX_SCREEN_WIDTH,
};
use crate::screen_input::{Key, ScreenEvent};
use crate::screen_layout;
use crate::screen_layout::ScreenAreas;
use crate::text;
use crate::text::CharSet;
use vstd::prelude::*;
use vstd::utf8::*;

verus! {

/// How often the screen is drawn if nothing else is asked for, in milliseconds.
pub const DEFAULT_REDRAW_INTERVAL_MS: u64 = 100;

/// How often the playback moves on, in milliseconds.
pub const FRAME_UPDATE_INTERVAL_MS: u64 = 500;

/// How long a notice is shown, in nanoseconds.
pub const REFRESH_NOTICE_NANOS: u128 = 1_200_000_000;

/// A notice about a refresh.
#[derive(Debug)]
pub struct RefreshNotice {
    pub message: String,
    pub colour: Colour,
}

impl View for RefreshNotice {
    type V = ScreenLineView;

    open spec fn view(&self) -> ScreenLineView {
        ScreenLineView { text: self.message@, colour: Some(self.colour) }
    }
}

/// What a reader shows.
#[derive(Debug)]
pub struct ProgressScreenState {
    pub replay: ReplayFrameState,
    pub windows: TopWindows,
    pub refresh_notice: Option<RefreshNotice>,
}

impl ProgressScreenState {
    pub open spec fn wf(self) -> bool {
        self.replay.wf()
    }

    pub open spec fn notice(self) -> Option<ScreenLineView> {
        progress_tui_logger::option_view(self.refresh_notice)
    }

    /// The screen before anything was read.
    pub fn new() -> (r: ProgressScreenState)
        ensures
            r.wf(),
            r.replay@ == ReplayView::initial(),
            r.windows == TopWindows::initial(),
            r.notice() is None,
    {
        ProgressScreenState {
            replay: ReplayFrameState::default(),
            windows: TopWindows::new(),
            refresh_notice: None,
        }
    }

    /// Shows a state of the playback, or the initial one where there is none.
    pub fn apply_replay_state(&mut self, replay: Option<ReplayFrameState>)
        requires
            replay is Some ==> replay->0.wf(),
        ensures
            final(self).wf(),
            final(self).replay@ == (match replay {
                Some(state) => state@,
                None => ReplayView::initial(),
            }),
            final(self).windows == old(self).windows,
            final(self).refresh_notice == old(self).refresh_notice,
    {
        self.replay = match replay {
            Some(state) => state,
            None => ReplayFrameState::default(),
        };
    }

    pub fn show_refresh_notice(&mut self, message: String, colour: Colour)
        ensures
            final(self).notice() == Some(
                ScreenLineView { text: message@, colour: Some(colour) },
            ),
            final(self).replay == old(self).replay,
            final(self).windows == old(self).windows,
    {
        self.refresh_notice = Some(RefreshNotice { message, colour });
    }

    /// The notice, if it was made no longer ago than notices are shown. An older one is dropped.
    pub fn refresh_notice_line(&mut self, age_nanos: u128) -> (r: Option<ScreenLine>)
        ensures
            progress_tui_logger::option_view(r) == (if age_nanos <= REFRESH_NOTICE_NANOS {
                old(self).notice()
            } else {
                None
            }),
            final(self).notice() == progress_tui_logger::option_view(r),
            final(self).replay == old(self).replay,
            final(self).windows == old(self).windows,
    {
        if let Some(notice) = &self.refresh_notice {
            if age_nanos <= REFRESH_NOTICE_NANOS {
                return Some(
                    ScreenLine { text: notice.message.clone(), colour: Some(notice.colour) },
                );
            }
        }
        self.refresh_notice = None;
        None
    }
}

// ---------------------------------------------------------------------------
// Input
// ---------------------------------------------------------------------------

/// No action.
pub open spec fn no_actions() -> InputActions {
    InputActions { quit: false, toggle_pause: false, speed_delta_steps: 0, refresh_file: false }
}

pub fn no_input() -> (r: InputActions)
    ensures
        r == no_actions(),
{
    InputActions { quit: false, toggle_pause: false, speed_delta_steps: 0, refresh_file: false }
}

/// The actions after one more event.
pub open spec fn actions_after(actions: InputActions, event: ScreenEvent) -> InputActions {
    match event {
        ScreenEvent::Key(key) => if !key.pressed {
            actions
        } else if key.control_quit() {
            InputActions { quit: true, ..actions }
        } else {
            match key.code {
                Key::Char(c) => if c == ' ' {
                    InputActions { toggle_pause: true, refresh_file: true, ..actions }
                } else if c == 'p' || c == 'P' {
                    InputActions { toggle_pause: true, ..actions }
                } else {
                    actions
                },
                Key::Left => InputActions {
                    speed_delta_steps: (actions.speed_delta_steps - 1) as i32,
                    ..actions
                },
                Key::Right => InputActions {
                    speed_delta_steps: (actions.speed_delta_steps + 1) as i32,
                    ..actions
                },
                _ => actions,
            }
        },
        _ => actions,
    }
}

/// The windows after one more event.
pub open spec fn windows_after(windows: TopWindows, event: ScreenEvent) -> TopWindows {
    match event {
        ScreenEvent::ScrollUp { x, y } => windows.scrolled_up(x, y, 1),
        ScreenEvent::ScrollDown { x, y } => windows.scrolled_down(x, y, 1),
        _ => windows,
    }
}

/// Takes one event. Returns whether the user wants to quit: then no further event is taken.
pub fn take_event(windows: &mut TopWindows, actions: &mut InputActions, event: ScreenEvent) -> (r:
    bool)
    requires
        i32::MIN < old(actions).speed_delta_steps < i32::MAX,
    ensures
        *final(windows) == windows_after(*old(windows), event),
        *final(actions) == actions_after(*old(actions), event),
        r == (event is Key && event->Key_0.control_quit()),
{
    match event {
        ScreenEvent::Key(key) => {
            if !key.pressed {
                return false;
            }
            if key.is_control_quit() {
                actions.quit = true;
                return true;
            }
            match key.code {
                Key::Char(c) => {
                    if c == ' ' {
                        actions.toggle_pause = true;
                        actions.refresh_file = true;
                    } else if c == 'p' || c == 'P' {
                        actions.toggle_pause = true;
                    }
                },
                Key::Left => {
                    actions.speed_delta_steps = actions.speed_delta_steps - 1;
                },
                Key::Right => {
                    actions.speed_delta_steps = actions.speed_delta_steps + 1;
                },
                _ => {},
            }
            false
        },
        ScreenEvent::ScrollUp { x, y } => {
            windows.scroll_top_window_up(x, y, 1);
            false
        },
        ScreenEvent::ScrollDown { x, y } => {
            windows.scroll_top_window_down(x, y, 1);
            false
        },
        ScreenEvent::Other => false,
    }
}

/// The actions and windows after a series of events. Nothing after the wish to quit counts.
pub open spec fn after_events(
    windows: TopWindows,
    actions: InputActions,
    events: Seq<ScreenEvent>,
) -> (TopWindows, InputActions)
    decreases events.len(),
{
    if events.len() == 0 || actions.quit {
        (windows, actions)
    } else {
        after_events(
            windows_after(windows, events[0]),
            actions_after(actions, events[0]),
            events.skip(1),
        )
    }
}

/// Takes the events since the last redraw.
pub fn handle_input_events(windows: &mut TopWindows, events: &Vec<ScreenEvent>) -> (r: InputActions)
    requires
        events@.len() < i32::MAX,
    ensures
        (*final(windows), r) == after_events(*old(windows), no_actions(), events@),
{
    let mut actions = no_input();
    let mut i: usize = 0;
    let ghost first = *windows;
    assert(events@.skip(0) =~= events@);
    while i < events.len()
        invariant
            i <= events@.len() < i32::MAX,
            -i <= actions.speed_delta_steps <= i,
            !actions.quit,
            after_events(first, no_actions(), events@) == after_events(
                *windows,
                actions,
                events@.skip(i as int),
            ),
            first == *old(windows),
        decreases events@.len() - i,
    {
        assert(events@.skip(i as int).skip(1) =~= events@.skip(i + 1));
        let quit = take_event(windows, &mut actions, events[i]);
        if quit {
            assert(after_events(*windows, actions, events@.skip(i + 1)) == (*windows, actions));
            return actions;
        }
        i = i + 1;
    }
    actions
}

/// What a redraw does with the user's actions.
#[derive(Clone, Copy, Debug, PartialEq, Eq, Structural)]
pub enum RedrawPlan {
    Quit,
    Draw,
    /// Reload the log, then draw.
    Refresh,
    /// Run the script, then reload the log, then draw. A script that fails ends the refresh.
    SyncAndRefresh,
}

pub fn redraw_plan(actions: InputActions, has_sync_script: bool) -> (r: RedrawPlan)
    ensures
        r == (if actions.quit {
            RedrawPlan::Quit
        } else if !actions.refresh_file {
            RedrawPlan::Draw
        } else if has_sync_script {
            RedrawPlan::SyncAndRefresh
        } else {
            RedrawPlan::Refresh
        }),
{
    if actions.quit {
        RedrawPlan::Quit
    } else if !actions.refresh_file {
        RedrawPlan::Draw
    } else if has_sync_script {
        RedrawPlan::SyncAndRefresh
    } else {
        RedrawPlan::Refresh
    }
}

// ---------------------------------------------------------------------------
// Notices
// ---------------------------------------------------------------------------

/// What a reader says of a log file that is not there.
pub fn missing_log_text(path: &str) -> (s: String)
    ensures
        s@ == "progress log file does not exist: "@ + path@,
{
    text::join2("progress log file does not exist: ", path)
}

/// What came of a script.
#[derive(Debug)]
pub enum ScriptOutcome {
    Succeeded,
    /// The script could not be run.
    NotRun(String),
    /// The status with which the script ended, in words, and what it wrote to its error stream.
    Failed { status: String, stderr: Vec<u8> },
}

/// The text that `String::from_utf8_lossy` makes of bytes.
pub uninterp spec fn lossy_words(bytes: Seq<u8>) -> Seq<char>;

/// `String::from_utf8_lossy` gives the text that bytes encode, with replacement characters for
/// what is not UTF-8. Bytes that are UTF-8 throughout give their own text; where and how often
/// replacement characters stand otherwise is left open.
#[verifier::external_body]
fn lossy_text(bytes: &Vec<u8>) -> (r: String)
    ensures
        r@ == lossy_words(bytes@),
        valid_utf8(bytes@) ==> r@ == decode_utf8(bytes@),
{
    String::from_utf8_lossy(bytes).into_owned()
}

/// What is said of a script that failed: its status and, if it wrote any, its last words.
pub open spec fn failure_words(
    script: Seq<char>,
    status: Seq<char>,
    written: Seq<char>,
) -> Seq<char> {
    let said = text::trimmed(written, CharSet::WhiteSpace);
    if said.len() == 0 {
        "script '"@ + script + "' exited with status "@ + status
    } else {
        "script '"@ + script + "' exited with status "@ + status + ": "@ + said
    }
}

/// What is said of a script that failed, given what it wrote to its error stream.
pub fn failure_text(script: &str, status: &str, written: &str) -> (s: String)
    ensures
        s@ == failure_words(script@, status@, written@),
{
    let said = text::trim(written, CharSet::WhiteSpace);
    if said.as_str().is_empty() {
        text::join4("script '", script, "' exited with status ", status)
    } else {
        text::join6(
            "script '",
            script,
            "' exited with status ",
            status,
            ": ",
            said.as_str(),
        )
    }
}

/// What went wrong with a script, if anything did.
pub open spec fn script_fault(script: Seq<char>, outcome: ScriptOutcome) -> Option<Seq<char>> {
    match outcome {
        ScriptOutcome::Succeeded => None,
        ScriptOutcome::NotRun(error) => Some(
            "failed to execute script '"@ + script + "': "@ + error@,
        ),
        ScriptOutcome::Failed { status, stderr } => Some(
            failure_words(script, status@, lossy_words(stderr@)),
        ),
    }
}

/// Whether a script succeeded; if not, what went wrong.
pub fn check_sync_script(script: &str, outcome: &ScriptOutcome) -> (r: Result<(), String>)
    ensures
        match r {
            Ok(_) => script_fault(script@, *outcome) is None,
            Err(e) => script_fault(script@, *outcome) == Some(e@),
        },
        match *outcome {
            ScriptOutcome::Failed { status, stderr } => valid_utf8(stderr@) ==> {
                &&& r is Err
                &&& r->Err_0@ == failure_words(script@, status@, decode_utf8(stderr@))
            },
            _ => true,
        },
{
    match outcome {
        ScriptOutcome::Succeeded => Ok(()),
        ScriptOutcome::NotRun(error) => Err(
            text::join4("failed to execute script '", script, "': ", error.as_str()),
        ),
        ScriptOutcome::Failed { status, stderr } => {
            let written = lossy_text(stderr);
            Err(failure_text(script, status.as_str(), written.as_str()))
        },
    }
}

/// The notice about a refresh.
pub open spec fn refresh_words(synced: bool, result: RefreshResult) -> Seq<char> {
    let verb = if synced {
        "Synced+refreshed"@
    } else {
        "Refreshed file"@
    };
    if result.current_frame_count > result.previous_frame_count {
        verb + ": "@ + decimal::decimal(result.previous_frame_count as nat) + " -> "@
            + decimal::decimal(result.current_frame_count as nat) + " frames"@
    } else {
        verb + ": "@ + decimal::decimal(result.current_frame_count as nat) + " frames"@
    }
}

pub fn refresh_text(synced: bool, result: RefreshResult) -> (s: String)
    ensures
        s@ == refresh_words(synced, result),
{
    let verb = if synced {
        "Synced+refreshed"
    } else {
        "Refreshed file"
    };
    let now = decimal::usize_text(result.current_frame_count);
    if result.current_frame_count > result.previous_frame_count {
        text::join6(
            verb,
            ": ",
            decimal::usize_text(result.previous_frame_count).as_str(),
            " -> ",
            now.as_str(),
            " frames",
        )
    } else {
        text::join4(verb, ": ", now.as_str(), " frames")
    }
}

/// The notice about a script that failed.
pub fn sync_failed_text(error: &str) -> (s: String)
    ensures
        s@ == "Sync script failed: "@ + error@,
{
    text::join2("Sync script failed: ", error)
}

/// The notice about a refresh that failed.
pub fn refresh_failed_text(error: &str) -> (s: String)
    ensures
        s@ == "Refresh failed: "@ + error@,
{
    text::join2("Refresh failed: ", error)
}

/// The notice about a refresh, green where it was done and red where it failed.
pub fn refresh_notice(synced: bool, result: Result<RefreshResult, String>) -> (r: RefreshNotice)
    ensures
        r@ == (match result {
            Ok(counts) => ScreenLineView {
                text: refresh_words(synced, counts),
                colour: Some(Colour::Green),
            },
            Err(error) => ScreenLineView {
                text: "Refresh failed: "@ + error@,
                colour: Some(Colour::Red),
            },
        }),
{
    match result {
        Ok(counts) => RefreshNotice {
            message: refresh_text(synced, counts),
            colour: Colour::Green,
        },
        Err(error) => RefreshNotice {
            message: refresh_failed_text(error.as_str()),
            colour: Colour::Red,
        },
    }
}

/// What follows a script that was run before a refresh.
#[derive(Debug)]
pub enum AfterScript {
    /// Reload the log.
    Refresh,
    /// Show the notice on the screen as it is, and reload nothing.
    ShowAndStop(RefreshNotice),
}

/// What follows a script that was run before a refresh: one that failed ends the refresh.
pub fn after_sync_script(result: Result<(), String>) -> (r: AfterScript)
    ensures
        match result {
            Ok(_) => r is Refresh,
            Err(error) => {
                &&& r is ShowAndStop
                &&& r->ShowAndStop_0@ == (ScreenLineView {
                    text: "Sync script failed: "@ + error@,
                    colour: Some(Colour::Red),
                })
            },
        },
{
    match result {
        Ok(_) => AfterScript::Refresh,
        Err(error) => AfterScript::ShowAndStop(
            RefreshNotice { message: sync_failed_text(error.as_str()), colour: Colour::Red },
        ),
    }
}

// ---------------------------------------------------------------------------
// Drawing
// ---------------------------------------------------------------------------

/// What is asked of the bottom of the screen.
pub open spec fn bottom_rules() -> Seq<SizeRule> {
    seq![SizeRule::Length(5)]
}

/// Which frame is shown, counted from one, of how many.
pub open spec fn replay_line(playback: PlaybackStatus) -> Seq<char> {
    let shown = if playback.frame_count == 0 {
        0
    } else if playback.current_frame == usize::MAX {
        playback.current_frame as nat
    } else {
        (playback.current_frame + 1) as nat
    };
    "Replay: ("@ + decimal::decimal(shown) + "/"@ + decimal::decimal(playback.frame_count as nat)
        + ")"@
}

/// The time of the frame, the speed, and the keys. `elapsed_text` is the time in seconds, written
/// with one decimal.
pub open spec fn speed_line(playback: PlaybackStatus, elapsed_text: Seq<char>) -> Seq<char> {
    if playback.paused {
        "t="@ + elapsed_text
            + "s | speed 0 frame/0.5s (paused) | Space pause+refresh | <-/-> +/-1 frame/0.5s"@
    } else {
        "t="@ + elapsed_text + "s | speed "@ + decimal::signed_decimal(
            playback.speed_frames_per_half_second as int,
        ) + " frame/0.5s | Space pause+refresh | <-/-> +/-1 frame/0.5s"@
    }
}

/// The lines about the playback.
pub open spec fn playback_lines(
    playback: PlaybackStatus,
    elapsed_text: Seq<char>,
    notice: Option<ScreenLineView>,
) -> Seq<ScreenLineView> {
    let lines = seq![
        screen::plain_line(replay_line(playback)),
        screen::plain_line(speed_line(playback, elapsed_text)),
    ];
    match notice {
        Some(line) => lines.push(line),
        None => lines,
    }
}

fn playback_line_texts(
    playback: PlaybackStatus,
    elapsed_text: &str,
    notice: Option<ScreenLine>,
) -> (out: Vec<ScreenLine>)
    ensures
        screen::screen_lines(out@) == playback_lines(
            playback,
            elapsed_text@,
            progress_tui_logger::option_view(notice),
        ),
{
    let shown: usize = if playback.frame_count == 0 {
        0
    } else {
        playback.current_frame.saturating_add(1)
    };
    let mut out: Vec<ScreenLine> = Vec::new();
    out.push(
        ScreenLine {
            text: text::join5(
                "Replay: (",
                decimal::usize_text(shown).as_str(),
                "/",
                decimal::usize_text(playback.frame_count).as_str(),
                ")",
            ),
            colour: None,
        },
    );
    let speed = if playback.paused {
        text::join3(
            "t=",
            elapsed_text,
            "s | speed 0 frame/0.5s (paused) | Space pause+refresh | <-/-> +/-1 frame/0.5s",
        )
    } else {
        text::join5(
            "t=",
            elapsed_text,
            "s | speed ",
            decimal::i64_text(playback.speed_frames_per_half_second as i64).as_str(),
            " frame/0.5s | Space pause+refresh | <-/-> +/-1 frame/0.5s",
        )
    };
    out.push(ScreenLine { text: speed, colour: None });
    if let Some(line) = notice {
        out.push(line);
    }
    assert(screen::screen_lines(out@) =~= playback_lines(
        playback,
        elapsed_text@,
        progress_tui_logger::option_view(notice),
    ));
    out
}

/// The widget about the playback.
pub open spec fn playback_widget(
    playback: PlaybackStatus,
    elapsed_text: Seq<char>,
    notice: Option<ScreenLineView>,
    area: Rect,
) -> WidgetView {
    WidgetView::Paragraph {
        body: BodyView::Lines(playback_lines(playback, elapsed_text, notice)),
        title: Some("Playback"@),
        scroll: 0,
        trim: None,
        area,
    }
}

/// The widgets of the screen, once its windows are fitted to their areas and rows.
pub open spec fn reader_widgets(
    state: ProgressScreenState,
    playback: PlaybackStatus,
    elapsed_text: Seq<char>,
    areas: ScreenAreas,
    stats_rows: usize,
    log_rows: usize,
) -> Seq<WidgetView> {
    screen_layout::upper_widgets(
        state.windows,
        state.replay.stats,
        state.replay.log_lines@,
        areas,
        stats_rows,
        log_rows,
    ).push(playback_widget(playback, elapsed_text, state.notice(), areas.main@[3]))
}

/// How the screen changes when it is drawn.
pub open spec fn drawn(
    before: ProgressScreenState,
    after: ProgressScreenState,
    areas: ScreenAreas,
    age_nanos: u128,
    stats_rows: usize,
    log_rows: usize,
) -> bool {
    &&& after.replay == before.replay
    &&& after.windows == screen_layout::top_fitted(before.windows, areas, stats_rows, log_rows)
    &&& after.notice() == (if age_nanos <= REFRESH_NOTICE_NANOS {
        before.notice()
    } else {
        None
    })
}

/// Builds the screen in given areas, for given numbers of rows of its two windows.
pub fn compose(
    state: &mut ProgressScreenState,
    playback: PlaybackStatus,
    elapsed_text: &str,
    age_nanos: u128,
    areas: &ScreenAreas,
    stats_rows: usize,
    log_rows: usize,
) -> (widgets: Vec<Widget>)
    requires
        old(state).wf(),
        areas.main@.len() == 4,
        areas.top@.len() == 2,
        areas.left@.len() == 2,
        areas.workers@.len() == old(state).replay.stats.worker_progress.keys().len(),
    ensures
        final(state).wf(),
        drawn(*old(state), *final(state), *areas, age_nanos, stats_rows, log_rows),
        screen::widget_views(widgets@) == reader_widgets(
            *final(state),
            playback,
            elapsed_text@,
            *areas,
            stats_rows,
            log_rows,
        ),
{
    let mut windows = state.windows;
    let mut widgets = screen_layout::compose_upper(
        &mut windows,
        &state.replay.stats,
        &state.replay.log_lines,
        areas,
        stats_rows,
        log_rows,
    );
    state.windows = windows;
    let ghost upper = widgets@;
    let notice = state.refresh_notice_line(age_nanos);
    let ghost notice_view = progress_tui_logger::option_view(notice);
    let lines = playback_line_texts(playback, elapsed_text, notice);
    widgets.push(
        Widget::Paragraph {
            body: Body::Lines(lines),
            title: Some("Playback".to_owned()),
            scroll: 0,
            trim: None,
            area: areas.main[3],
        },
    );
    assert(screen::widget_views(widgets@) =~= screen::widget_views(upper).push(
        playback_widget(playback, elapsed_text@, notice_view, areas.main@[3]),
    ));
    widgets
}

/// Divides the screen and builds it. How the screen is divided is up to the layout; everything
/// else follows from that.
pub fn draw(
    state: &mut ProgressScreenState,
    playback: PlaybackStatus,
    elapsed_text: &str,
    age_nanos: u128,
    area: Rect,
) -> (r: (Vec<Widget>, ScreenAreas))
    requires
        old(state).wf(),
        screen::worker_rows_fit(old(state).replay.stats.worker_progress.keys().len()),
        area.width <= MAX_SCREEN_WIDTH,
    ensures
        final(state).wf(),
        r.1.of(
            area,
            bottom_rules(),
            !text::blank(old(state).replay@.stats.state),
            old(state).replay.stats.worker_progress.keys().len(),
        ),
        ({
            let stats_rows = screen::rows_inside(
                screen_layout::stats_lines(old(state).replay.stats),
                r.1.stats_area(),
                false,
            );
            let log_rows = screen::rows_inside(
                screen::rendered_log(old(state).replay@.log_lines),
                r.1.log_area(),
                false,
            );
            &&& drawn(
                *old(state),
                *final(state),
                r.1,
                age_nanos,
                stats_rows as usize,
                log_rows as usize,
            )
            &&& screen::widget_views(r.0@) == reader_widgets(
                *final(state),
                playback,
                elapsed_text@,
                r.1,
                stats_rows as usize,
                log_rows as usize,
            )
        }),
{
    let mut bottom: Vec<SizeRule> = Vec::new();
    bottom.push(SizeRule::Length(5));
    assert(bottom@ =~= bottom_rules());
    let state_has_text = !text::is_blank(state.replay.stats.state.as_str());
    let areas = screen_layout::split_screen(
        area,
        &bottom,
        state_has_text,
        state.replay.stats.worker_progress.len(),
    );
    let stats_rows: usize = screen_layout::stats_row_count(&state.replay.stats, &areas);
    let log_rows: usize = screen_layout::log_row_count(&state.replay.log_lines, &areas);
    let widgets = compose(state, playback, elapsed_text, age_nanos, &areas, stats_rows, log_rows);
    (widgets, areas)
}

// ---------------------------------------------------------------------------
// Laws
// ---------------------------------------------------------------------------

/// The user presses a key that stands for the character, and does not quit with it.
pub open spec fn presses_char(event: ScreenEvent, c: char) -> bool {
    event is Key && event->Key_0.pressed && !event->Key_0.control_quit() && event->Key_0.code
        == Key::Char(c)
}

/// The user presses a key that stands for no character.
pub open spec fn presses(event: ScreenEvent, code: Key) -> bool {
    event is Key && event->Key_0.pressed && event->Key_0.code == code
}

/// How often a key that stands for no character is pressed.
pub open spec fn presses_among(events: Seq<ScreenEvent>, code: Key) -> int
    decreases events.len(),
{
    if events.len() == 0 {
        0
    } else {
        presses_among(events.skip(1), code) + (if presses(events[0], code) {
            1int
        } else {
            0int
        })
    }
}

/// Ctrl+C or Ctrl+Q is pressed.
pub open spec fn asks_to_quit(event: ScreenEvent) -> bool {
    event is Key && event->Key_0.control_quit()
}

/// Each key does what it stands for, and nothing else: the arrows change the speed by a step, P
/// pauses or goes on, the space bar does the same and reloads the log.
pub proof fn keys_do_what_they_stand_for(actions: InputActions, event: ScreenEvent)
    requires
        i32::MIN < actions.speed_delta_steps < i32::MAX,
    ensures
        ({
            let after = actions_after(actions, event);
            &&& after.quit == (actions.quit || asks_to_quit(event))
            &&& after.toggle_pause == (actions.toggle_pause || presses_char(event, ' ')
                || presses_char(event, 'p') || presses_char(event, 'P'))
            &&& after.refresh_file == (actions.refresh_file || presses_char(event, ' '))
            &&& presses(event, Key::Left) ==> after.speed_delta_steps == actions.speed_delta_steps
                - 1
            &&& presses(event, Key::Right) ==> after.speed_delta_steps == actions.speed_delta_steps
                + 1
            &&& !presses(event, Key::Left) && !presses(event, Key::Right)
                ==> after.speed_delta_steps == actions.speed_delta_steps
        }),
{
}

/// The speed changes by as many steps as the right arrow was pressed more often than the left one.
pub proof fn arrows_add_up(windows: TopWindows, actions: InputActions, events: Seq<ScreenEvent>)
    requires
        forall|i: int| 0 <= i < events.len() ==> !asks_to_quit(#[trigger] events[i]),
        !actions.quit,
        i32::MIN <= actions.speed_delta_steps - events.len(),
        actions.speed_delta_steps + events.len() <= i32::MAX,
    ensures
        ({
            let after = after_events(windows, actions, events).1;
            &&& !after.quit
            &&& after.speed_delta_steps == actions.speed_delta_steps + presses_among(
                events,
                Key::Right,
            ) - presses_among(events, Key::Left)
        }),
    decreases events.len(),
{
    if events.len() > 0 {
        let first = events[0];
        keys_do_what_they_stand_for(actions, first);
        let rest = events.skip(1);
        assert forall|i: int| 0 <= i < rest.len() implies !asks_to_quit(#[trigger] rest[i]) by {
            assert(rest[i] == events[i + 1]);
        }
        arrows_add_up(windows_after(windows, first), actions_after(actions, first), rest);
    }
}

/// Playback is paused or goes on, and the log is reloaded, if and only if a key that asks for it
/// was among those pressed.
pub proof fn wishes_are_kept(windows: TopWindows, actions: InputActions, events: Seq<ScreenEvent>)
    requires
        forall|i: int| 0 <= i < events.len() ==> !asks_to_quit(#[trigger] events[i]),
        !actions.quit,
        i32::MIN <= actions.speed_delta_steps - events.len(),
        actions.speed_delta_steps + events.len() <= i32::MAX,
    ensures
        ({
            let after = after_events(windows, actions, events).1;
            &&& after.refresh_file == (actions.refresh_file || exists|i: int|
                0 <= i < events.len() && presses_char(#[trigger] events[i], ' '))
            &&& after.toggle_pause == (actions.toggle_pause || exists|i: int|
                0 <= i < events.len() && (presses_char(#[trigger] events[i], ' ') || presses_char(
                    events[i],
                    'p',
                ) || presses_char(events[i], 'P')))
        }),
    decreases events.len(),
{
    if events.len() > 0 {
        let first = events[0];
        keys_do_what_they_stand_for(actions, first);
        let rest = events.skip(1);
        assert forall|i: int| 0 <= i < rest.len() implies !asks_to_quit(#[trigger] rest[i]) by {
            assert(rest[i] == events[i + 1]);
        }
        wishes_are_kept(windows_after(windows, first), actions_after(actions, first), rest);
        assert forall|i: int| 1 <= i < events.len() implies #[trigger] events[i] == rest[i - 1] by {
        }
        assert forall|i: int| 0 <= i < rest.len() implies #[trigger] rest[i] == events[i + 1] by {
        }
    }
}

/// Nothing after the wish to quit counts, and the wish itself changes nothing else.
pub proof fn quitting_ends_the_input(
    windows: TopWindows,
    actions: InputActions,
    before: Seq<ScreenEvent>,
    quit: ScreenEvent,
    after: Seq<ScreenEvent>,
)
    requires
        asks_to_quit(quit),
        !after_events(windows, actions, before).1.quit,
    ensures
        ({
            let (w, a) = after_events(windows, actions, before);
            after_events(windows, actions, before.push(quit) + after) == (
                w,
                InputActions { quit: true, ..a },
            )
        }),
    decreases before.len(),
{
    let all = before.push(quit) + after;
    if before.len() == 0 {
        reveal_with_fuel(after_events, 2);
        assert(all[0] == quit);
    } else {
        assert(all[0] == before[0]);
        assert(all.skip(1) =~= before.skip(1).push(quit) + after);
        quitting_ends_the_input(
            windows_after(windows, before[0]),
            actions_after(actions, before[0]),
            before.skip(1),
            quit,
            after,
        );
    }
}

/// The wheel scrolls by one row and back; nothing else scrolls.
pub proof fn the_wheel_scrolls_by_one(windows: TopWindows, x: u16, y: u16, event: ScreenEvent)
    requires
        windows.stats_scroll_from_bottom < usize::MAX,
        windows.log_scroll_from_bottom < usize::MAX,
    ensures
        ({
            let up = windows_after(windows, ScreenEvent::ScrollUp { x, y });
            &&& windows_after(up, ScreenEvent::ScrollDown { x, y }) == windows
            &&& windows.stats_area.holds(x, y) ==> up.stats_scroll_from_bottom
                == windows.stats_scroll_from_bottom + 1
            &&& !windows.stats_area.holds(x, y) && windows.log_area.holds(x, y)
                ==> up.log_scroll_from_bottom == windows.log_scroll_from_bottom + 1
        }),
        !(event is ScrollUp) && !(event is ScrollDown) ==> windows_after(windows, event)
            == windows,
{
}

/// A script that failed is told by its status and, where it wrote any, its last words without the
/// white space around them; one that could not be run, by the error. Nothing is told of one that
/// succeeded.
pub proof fn scripts_that_fail_are_told(
    script: Seq<char>,
    outcome: ScriptOutcome,
    before: Seq<char>,
    said: Seq<char>,
    after: Seq<char>,
)
    requires
        text::all_in(before, CharSet::WhiteSpace),
        text::all_in(after, CharSet::WhiteSpace),
        text::bare(said, CharSet::WhiteSpace),
        outcome is Failed ==> lossy_words(outcome->stderr@) == before + said + after,
    ensures
        script_fault(script, outcome) is None <==> outcome is Succeeded,
        outcome is NotRun ==> script_fault(script, outcome) == Some(
            "failed to execute script '"@ + script + "': "@ + outcome->NotRun_0@,
        ),
        outcome is Failed && said.len() == 0 ==> script_fault(script, outcome) == Some(
            "script '"@ + script + "' exited with status "@ + outcome->status@,
        ),
        outcome is Failed && said.len() > 0 ==> script_fault(script, outcome) == Some(
            "script '"@ + script + "' exited with status "@ + outcome->status@ + ": "@ + said,
        ),
{
    text::trimming_drops_the_margins(before, said, after, CharSet::WhiteSpace);
}

/// A refresh is told by how many frames there are now, and by how many there were where there are
/// more than before.
pub proof fn refreshes_tell_the_frames(result: RefreshResult)
    ensures
        result.current_frame_count > result.previous_frame_count ==> {
            &&& refresh_words(false, result) == "Refreshed file"@ + ": "@ + decimal::decimal(
                result.previous_frame_count as nat,
            ) + " -> "@ + decimal::decimal(result.current_frame_count as nat) + " frames"@
            &&& refresh_words(true, result) == "Synced+refreshed"@ + ": "@ + decimal::decimal(
                result.previous_frame_count as nat,
            ) + " -> "@ + decimal::decimal(result.current_frame_count as nat) + " frames"@
        },
        result.current_frame_count <= result.previous_frame_count ==> {
            &&& refresh_words(false, result) == "Refreshed file"@ + ": "@ + decimal::decimal(
                result.current_frame_count as nat,
            ) + " frames"@
            &&& refresh_words(true, result) == "Synced+refreshed"@ + ": "@ + decimal::decimal(
                result.current_frame_count as nat,
            ) + " frames"@
        },
{
}

/// Frames are counted from one; a log without frames shows none.
pub proof fn frames_are_counted_from_one(playback: PlaybackStatus)
    requires
        playback.current_frame < usize::MAX,
    ensures
        playback.frame_count == 0 ==> replay_line(playback) == "Replay: ("@ + decimal::decimal(0)
            + "/"@ + decimal::decimal(0) + ")"@,
        playback.frame_count > 0 ==> replay_line(playback) == "Replay: ("@ + decimal::decimal(
            (playback.current_frame + 1) as nat,
        ) + "/"@ + decimal::decimal(playback.frame_count as nat) + ")"@,
{
}

/// A playback that runs shows its speed, in either direction; one that is paused stands at zero,
/// whatever its speed. Both show the time of the frame and the keys.
pub proof fn speeds_are_shown(playback: PlaybackStatus, elapsed_text: Seq<char>)
    ensures
        playback.paused ==> speed_line(playback, elapsed_text) == "t="@ + elapsed_text
            + "s | speed 0 frame/0.5s (paused) | Space pause+refresh | <-/-> +/-1 frame/0.5s"@,
        !playback.paused && playback.speed_frames_per_half_second >= 0 ==> speed_line(
            playback,
            elapsed_text,
        ) == "t="@ + elapsed_text + "s | speed "@ + decimal::decimal(
            playback.speed_frames_per_half_second as nat,
        ) + " frame/0.5s | Space pause+refresh | <-/-> +/-1 frame/0.5s"@,
        !playback.paused && playback.speed_frames_per_half_second < 0 ==> speed_line(
            playback,
            elapsed_text,
        ) == "t="@ + elapsed_text + "s | speed "@ + ("-"@ + decimal::decimal(
            (-playback.speed_frames_per_half_second) as nat,
        )) + " frame/0.5s | Space pause+refresh | <-/-> +/-1 frame/0.5s"@,
{
    decimal::signed_text_has_a_sign(playback.speed_frames_per_half_second as int);
    reveal_strlit("-");
}

/// The playback is told in two lines; a notice stands under them.
pub proof fn notices_stand_under_the_playback(
    playback: PlaybackStatus,
    elapsed_text: Seq<char>,
    notice: ScreenLineView,
)
    ensures
        ({
            let plain = playback_lines(playback, elapsed_text, None);
            &&& plain.len() == 2
            &&& plain[0].text == replay_line(playback)
            &&& plain[1].text == speed_line(playback, elapsed_text)
            &&& plain[0].colour is None
            &&& plain[1].colour is None
            &&& playback_lines(playback, elapsed_text, Some(notice)) == plain.push(notice)
        }),
{
}

/// The playback is told at the bottom of the screen, in five rows, below all other parts.
pub proof fn the_playback_is_shown_last(
    state: ProgressScreenState,
    playback: PlaybackStatus,
    elapsed_text: Seq<char>,
    areas: ScreenAreas,
    stats_rows: usize,
    log_rows: usize,
)
    ensures
        ({
            let all = reader_widgets(state, playback, elapsed_text, areas, stats_rows, log_rows);
            &&& all.last() == (WidgetView::Paragraph {
                body: BodyView::Lines(playback_lines(playback, elapsed_text, state.notice())),
                title: Some("Playback"@),
                scroll: 0,
                trim: None,
                area: areas.main@[3],
            })
            &&& all.drop_last() == screen_layout::upper_widgets(
                state.windows,
                state.replay.stats,
                state.replay.log_lines@,
                areas,
                stats_rows,
                log_rows,
            )
        }),
        bottom_rules() == seq![SizeRule::Length(5)],
{
    let all = reader_widgets(state, playback, elapsed_text, areas, stats_rows, log_rows);
    assert(all.drop_last() =~= screen_layout::upper_widgets(
        state.windows,
        state.replay.stats,
        state.replay.log_lines@,
        areas,
        stats_rows,
        log_rows,
    ));
}

/// Drawing keeps what is played back, and a notice for as long as twelve tenths of a second.
pub proof fn notices_are_shown_for_a_while(
    before: ProgressScreenState,
    after: ProgressScreenState,
    areas: ScreenAreas,
    age_millis: int,
    stats_rows: usize,
    log_rows: usize,
)
    requires
        0 <= age_millis <= 1_000_000,
        drawn(before, after, areas, (age_millis * 1_000_000) as u128, stats_rows, log_rows),
    ensures
        after.replay == before.replay,
        age_millis <= 1200 ==> after.notice() == before.notice(),
        age_millis > 1200 ==> after.notice() is None,
        after.windows.stats_area == areas.left@[1],
        after.windows.log_area == areas.top@[1],
        after.windows.stats_scroll_from_bottom <= before.windows.stats_scroll_from_bottom,
        after.windows.log_scroll_from_bottom <= before.windows.log_scroll_from_bottom,
{
}

/// Nothing is asked for before the first event.
pub proof fn no_event_asks_for_nothing()
    ensures
        !no_actions().quit,
        !no_actions().toggle_pause,
        !no_actions().refresh_file,
        no_actions().speed_delta_steps == 0,
{
}

/// The screen is drawn ten times a second, and the playback moves on twice a second.
pub proof fn redraws_and_moves_come_in_time()
    ensures
        DEFAULT_REDRAW_INTERVAL_MS * 10 == 1000,
        FRAME_UPDATE_INTERVAL_MS * 2 == 1000,
{
}

}
