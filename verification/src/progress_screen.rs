//! A progress screen in the same process as the program whose progress it shows.

use crate::log_lines;
use crate::log_lines::{LineView, LogLines, ProgressLogLine, MAX_LOG_LINES};
use crate::message::{MyLogMessage, Severity};
use crate::progress_tui_logger;
use crate::progress_tui_protocol::{GaugeView, ProgressGaugeState};
use crate::screen;
use crate::screen::{Body, BodyView, Direction, Rect, SizeRule, Widget, WidgetView};
use crate::screen_input::{Key, ScreenEvent};
use crate::screen_layout;
use crate::text;
use crate::text_map::TextMap;
use vstd::prelude::*;

verus! {

/// The keys that are shown before all others.
pub const PROGRESS_SCREEN_KEY_ORDER: [&'static str; 1] = ["status"];

/// How often the screen is drawn, in milliseconds.
pub const DEFAULT_REDRAW_INTERVAL_MS: u64 = 100;

/// What the screen says when the program has ended.
pub const DEFAULT_PERSIST_EXIT_HINT: &'static str = "All tasks are done. Press Q to exit.";

/// How a screen is run.
#[derive(Debug)]
pub struct RunConfig {
    pub window_title: String,
    pub key_order: Vec<String>,
    pub persist_after_channel_close: bool,
    pub persist_exit_hint: String,
}

impl RunConfig {
    pub fn new(window_title: String, persist_after_channel_close: bool) -> (r: RunConfig)
        ensures
            r.window_title == window_title,
            text::texts(r.key_order@) == seq!["status"@],
            r.persist_after_channel_close == persist_after_channel_close,
            r.persist_exit_hint@ == DEFAULT_PERSIST_EXIT_HINT@,
    {
        let mut key_order: Vec<String> = Vec::new();
        key_order.push(PROGRESS_SCREEN_KEY_ORDER[0].to_owned());
        assert(text::texts(key_order@) =~= seq!["status"@]);
        RunConfig {
            window_title,
            key_order,
            persist_after_channel_close,
            persist_exit_hint: DEFAULT_PERSIST_EXIT_HINT.to_owned(),
        }
    }
}

/// What the screen shows.
#[derive(Debug)]
pub struct ProgressScreen {
    pub key_values: TextMap<String>,
    pub log_lines: LogLines,
    pub log_scroll_from_bottom: usize,
    pub log_viewport_height: usize,
    pub worker_progress: TextMap<ProgressGaugeState>,
    pub master_progress: ProgressGaugeState,
}

/// The contents of a [`ProgressScreen`].
#[verifier::ext_equal]
pub struct ScreenView {
    pub key_values: Map<Seq<char>, Seq<char>>,
    pub log_lines: Seq<LineView>,
    pub scroll: usize,
    pub viewport: usize,
    pub worker_progress: Map<Seq<char>, GaugeView>,
    pub master_progress: GaugeView,
}

impl View for ProgressScreen {
    type V = ScreenView;

    open spec fn view(&self) -> ScreenView {
        ScreenView {
            key_values: self.key_values@,
            log_lines: self.log_lines@,
            scroll: self.log_scroll_from_bottom,
            viewport: self.log_viewport_height,
            worker_progress: self.worker_progress@,
            master_progress: self.master_progress@,
        }
    }
}

impl ScreenView {
    pub open spec fn initial() -> ScreenView {
        ScreenView {
            key_values: Map::empty(),
            log_lines: Seq::empty(),
            scroll: 0,
            viewport: 1,
            worker_progress: Map::empty(),
            master_progress: GaugeView::zero(),
        }
    }

    /// The largest number of lines that the log can be scrolled up.
    pub open spec fn limit(self) -> int {
        screen::scroll_limit(self.log_lines.len() as int, self.viewport as int)
    }

    /// The log is scrolled up no further than to its first line.
    pub open spec fn on_its_lines(self) -> bool {
        self.scroll <= self.limit()
    }

    /// The screen with the scroll kept within the lines.
    pub open spec fn clamped(self) -> ScreenView {
        ScreenView {
            scroll: if self.scroll > self.limit() {
                self.limit() as usize
            } else {
                self.scroll
            },
            ..self
        }
    }

    /// The screen after one more log line. A log that is scrolled up stays on its lines.
    pub open spec fn with_line(self, line: LineView) -> ScreenView {
        (ScreenView {
            log_lines: log_lines::latest(self.log_lines.push(line), MAX_LOG_LINES as nat),
            scroll: if self.scroll > 0 {
                screen::capped_count(self.scroll, 1)
            } else {
                0
            },
            ..self
        }).clamped()
    }

    /// The screen after a message.
    pub open spec fn applied(self, message: MyLogMessage) -> ScreenView {
        match message {
            MyLogMessage::Line { message, severity } => self.with_line(
                LineView { message: message@, severity },
            ),
            MyLogMessage::KeyValuePair { key, value } => ScreenView {
                key_values: self.key_values.insert(key@, value@),
                ..self
            },
            MyLogMessage::WorkerProgress { worker_name, progress, label } => ScreenView {
                worker_progress: self.worker_progress.insert(
                    worker_name@,
                    GaugeView { progress, label: label@ },
                ),
                ..self
            },
            MyLogMessage::MasterProgress { progress, label } => ScreenView {
                master_progress: GaugeView { progress, label: label@ },
                ..self
            },
        }
    }

    pub open spec fn scrolled_up(self, amount: usize) -> ScreenView {
        (ScreenView { scroll: screen::capped_count(self.scroll, amount), ..self }).clamped()
    }

    pub open spec fn scrolled_down(self, amount: usize) -> ScreenView {
        ScreenView {
            scroll: screen::floored_difference(self.scroll as int, amount as int) as usize,
            ..self
        }
    }
}

/// Messages and scrolling keep the log on its lines, and no more lines than a screen keeps.
pub proof fn log_stays_on_its_lines(view: ScreenView, message: MyLogMessage, amount: usize)
    requires
        view.on_its_lines(),
        view.log_lines.len() <= MAX_LOG_LINES,
    ensures
        view.applied(message).on_its_lines(),
        view.applied(message).log_lines.len() <= MAX_LOG_LINES,
        view.scrolled_up(amount).on_its_lines(),
        view.scrolled_down(amount).on_its_lines(),
{
}

/// A window on a log that is scrolled up, but not to its first line, shows the same lines after a
/// line was added, as long as no line was dropped.
pub proof fn scrolled_log_stands_still(view: ScreenView, line: LineView)
    requires
        view.on_its_lines(),
        0 < view.scroll < usize::MAX,
        view.log_lines.len() < MAX_LOG_LINES,
    ensures
        ({
            let after = view.with_line(line);
            let total = view.log_lines.len() as int;
            &&& screen::window_end(total + 1, view.viewport as int, after.scroll as int)
                == screen::window_end(total, view.viewport as int, view.scroll as int)
            &&& screen::window_start(total + 1, view.viewport as int, after.scroll as int)
                == screen::window_start(total, view.viewport as int, view.scroll as int)
            &&& after.log_lines.take(total) == view.log_lines
        }),
{
    let after = view.with_line(line);
    assert(after.log_lines.take(view.log_lines.len() as int) =~= view.log_lines);
}

impl ProgressScreen {
    pub open spec fn wf(self) -> bool {
        &&& self.key_values.wf()
        &&& self.log_lines.wf()
        &&& self.worker_progress.wf()
    }

    /// The screen before any message.
    pub fn new() -> (r: ProgressScreen)
        ensures
            r.wf(),
            r@ == ScreenView::initial(),
    {
        let r = ProgressScreen {
            key_values: TextMap::new(),
            log_lines: LogLines::new(),
            log_scroll_from_bottom: 0,
            log_viewport_height: 1,
            worker_progress: TextMap::new(),
            master_progress: ProgressGaugeState::zero(),
        };
        assert(r@ =~= ScreenView::initial());
        r
    }

    /// Takes a message.
    pub fn handle_message(&mut self, message: MyLogMessage)
        requires
            old(self).wf(),
            message.in_range(),
        ensures
            final(self).wf(),
            final(self)@ == old(self)@.applied(message),
    {
        match message {
            MyLogMessage::Line { message: line, severity } => {
                self.push_log_line(line, severity);
            },
            MyLogMessage::KeyValuePair { key, value } => {
                self.key_values.insert(key, value);
            },
            MyLogMessage::WorkerProgress { worker_name, progress, label } => {
                self.worker_progress.insert(worker_name, ProgressGaugeState { progress, label });
            },
            MyLogMessage::MasterProgress { progress, label } => {
                self.master_progress = ProgressGaugeState { progress, label };
            },
        }
        assert(self@ =~= old(self)@.applied(message));
    }

    fn push_log_line(&mut self, message: String, severity: Severity)
        requires
            old(self).wf(),
        ensures
            final(self).wf(),
            final(self)@ == old(self)@.with_line(LineView { message: message@, severity }),
    {
        if self.log_scroll_from_bottom > 0 {
            self.log_scroll_from_bottom = self.log_scroll_from_bottom.saturating_add(1);
        }
        self.log_lines.push(ProgressLogLine { message, severity });
        self.clamp_scroll();
    }

    pub fn scroll_log_up(&mut self, amount: usize)
        requires
            old(self).wf(),
        ensures
            final(self).wf(),
            final(self)@ == old(self)@.scrolled_up(amount),
    {
        self.log_scroll_from_bottom = self.log_scroll_from_bottom.saturating_add(amount);
        self.clamp_scroll();
    }

    pub fn scroll_log_down(&mut self, amount: usize)
        requires
            old(self).wf(),
        ensures
            final(self).wf(),
            final(self)@ == old(self)@.scrolled_down(amount),
    {
        self.log_scroll_from_bottom = self.log_scroll_from_bottom.saturating_sub(amount);
    }

    pub fn clamp_scroll(&mut self)
        requires
            old(self).wf(),
        ensures
            final(self).wf(),
            final(self)@ == old(self)@.clamped(),
            final(self).key_values == old(self).key_values,
            final(self).log_lines == old(self).log_lines,
            final(self).worker_progress == old(self).worker_progress,
            final(self).master_progress == old(self).master_progress,
    {
        let max_scroll: usize = screen::max_scroll(self.log_lines.len(), self.log_viewport_height);
        if self.log_scroll_from_bottom > max_scroll {
            self.log_scroll_from_bottom = max_scroll;
        }
    }

    /// Takes one event. Returns whether the user wants to quit: then no further event is taken.
    pub fn take_event(&mut self, event: ScreenEvent) -> (r: bool)
        requires
            old(self).wf(),
        ensures
            final(self).wf(),
            r == quits(event),
            final(self)@ == (match event {
                ScreenEvent::ScrollUp { .. } => old(self)@.scrolled_up(1),
                ScreenEvent::ScrollDown { .. } => old(self)@.scrolled_down(1),
                _ => old(self)@,
            }),
    {
        match event {
            ScreenEvent::Key(key) => match key.code {
                Key::Char(c) => c == 'Q' || c == 'q',
                _ => false,
            },
            ScreenEvent::ScrollUp { .. } => {
                self.scroll_log_up(1);
                false
            },
            ScreenEvent::ScrollDown { .. } => {
                self.scroll_log_down(1);
                false
            },
            ScreenEvent::Other => false,
        }
    }
}

/// The key Q, in either case, whether it goes down or up.
pub open spec fn quits(event: ScreenEvent) -> bool {
    event matches ScreenEvent::Key(key) && (key.code == Key::Char('Q') || key.code == Key::Char(
        'q',
    ))
}

/// The line of the log file for a message. Only log lines have one.
pub fn line_for_log_file(message: &MyLogMessage) -> (r: Option<String>)
    ensures
        progress_tui_logger::option_view(r) == (match *message {
            MyLogMessage::Line { message, .. } => Some(message@),
            _ => None,
        }),
{
    match message {
        MyLogMessage::Line { message: line, .. } => Some(line.clone()),
        _ => None,
    }
}

// ---------------------------------------------------------------------------
// Running
// ---------------------------------------------------------------------------

/// How far the run of a screen has come.
#[derive(Clone, Copy, Debug, PartialEq, Eq, Structural)]
pub struct RunState {
    pub my_log_channel_closed: bool,
    pub shutdown_requested: bool,
}

/// What wakes a running screen up.
#[derive(Clone, Copy, Debug, PartialEq, Eq, Structural)]
pub enum Wake {
    /// A message came.
    Message,
    /// No more messages will come.
    ChannelClosed,
    /// The program asks the screen to end.
    Shutdown,
    /// It is time to draw.
    Tick,
}

/// What a running screen does next.
#[derive(Clone, Copy, Debug, PartialEq, Eq, Structural)]
pub enum RunStep {
    /// Look at the input, then draw.
    Draw,
    End,
}

impl RunState {
    pub fn new() -> (r: RunState)
        ensures
            r == (RunState { my_log_channel_closed: false, shutdown_requested: false }),
    {
        RunState { my_log_channel_closed: false, shutdown_requested: false }
    }

    /// The state after a wake-up.
    pub open spec fn woken(self, wake: Wake) -> RunState {
        match wake {
            Wake::Message => self,
            Wake::ChannelClosed => RunState { my_log_channel_closed: true, ..self },
            Wake::Shutdown => RunState { my_log_channel_closed: true, shutdown_requested: true },
            Wake::Tick => self,
        }
    }

    /// What a wake-up leads to. A screen that does not persist ends with its messages.
    pub fn wake(&mut self, wake: Wake, persist_after_channel_close: bool) -> (r: RunStep)
        ensures
            *final(self) == old(self).woken(wake),
            r == (if (wake == Wake::ChannelClosed || wake == Wake::Shutdown)
                && !persist_after_channel_close {
                RunStep::End
            } else {
                RunStep::Draw
            }),
    {
        match wake {
            Wake::Message => RunStep::Draw,
            Wake::ChannelClosed => {
                self.my_log_channel_closed = true;
                if !persist_after_channel_close {
                    RunStep::End
                } else {
                    RunStep::Draw
                }
            },
            Wake::Shutdown => {
                self.shutdown_requested = true;
                self.my_log_channel_closed = true;
                if !persist_after_channel_close {
                    RunStep::End
                } else {
                    RunStep::Draw
                }
            },
            Wake::Tick => RunStep::Draw,
        }
    }
}

// ---------------------------------------------------------------------------
// Drawing
// ---------------------------------------------------------------------------

/// The areas of the screen.
#[derive(Debug)]
pub struct Areas {
    pub main: Vec<Rect>,
    pub top: Vec<Rect>,
    pub workers: Vec<Rect>,
}

/// What is asked of the bottom of the screen: a place for the hint that the program has ended.
pub open spec fn bottom_rules(show_hint: bool) -> Seq<SizeRule> {
    seq![
        SizeRule::Length(
            if show_hint {
                3
            } else {
                0
            },
        ),
    ]
}

impl Areas {
    /// The areas are ones that dividing a screen can give.
    pub open spec fn of(self, area: Rect, show_hint: bool, worker_count: nat) -> bool {
        &&& screen_layout::split_into(
            area,
            Direction::Vertical,
            screen_layout::main_rules(worker_count, bottom_rules(show_hint)),
            self.main@,
        )
        &&& screen_layout::split_into(
            self.main@[0],
            Direction::Horizontal,
            screen_layout::half_rules(),
            self.top@,
        )
        &&& screen_layout::split_into(
            self.main@[1].inside_border(),
            Direction::Vertical,
            screen_layout::worker_row_rules(worker_count),
            self.workers@,
        )
    }
}

fn split_screen(area: Rect, show_hint: bool, worker_count: usize) -> (r: Areas)
    requires
        screen::worker_rows_fit(worker_count as nat),
    ensures
        r.of(area, show_hint, worker_count as nat),
{
    let mut rules: Vec<SizeRule> = Vec::new();
    rules.push(SizeRule::Min(6));
    let worker_rows: u16 = #[verifier::truncate] (worker_count as u16);
    rules.push(SizeRule::Length(worker_rows + 2));
    rules.push(SizeRule::Length(3));
    rules.push(
        SizeRule::Length(
            if show_hint {
                3
            } else {
                0
            },
        ),
    );
    assert(rules@ =~= screen_layout::main_rules(worker_count as nat, bottom_rules(show_hint)));
    let main = screen::split_area(area, Direction::Vertical, &rules);

    let mut halves: Vec<SizeRule> = Vec::new();
    halves.push(SizeRule::Percentage(50));
    halves.push(SizeRule::Percentage(50));
    assert(halves@ =~= screen_layout::half_rules());
    let top = screen::split_area(main[0], Direction::Horizontal, &halves);

    let worker_rules = screen::worker_rules(worker_count);
    let workers = screen::split_area(
        screen::block_inner(main[1]),
        Direction::Vertical,
        &worker_rules,
    );
    Areas { main, top, workers }
}

/// The hint that the program has ended.
pub open spec fn hint_widgets(show_hint: bool, hint: Seq<char>, area: Rect) -> Seq<WidgetView> {
    if show_hint {
        seq![
            WidgetView::Paragraph {
                body: BodyView::Text(hint),
                title: Some("Program Ended"@),
                scroll: 0,
                trim: None,
                area,
            },
        ]
    } else {
        Seq::empty()
    }
}

/// The log lines that are shown.
pub open spec fn visible_lines(view: ScreenView, height: int) -> Seq<screen::ScreenLineView> {
    let total = view.log_lines.len() as int;
    if total == 0 {
        screen::no_logs()
    } else {
        screen::log_lines_between(
            view.log_lines,
            screen::window_start(total, height, view.scroll as int),
            screen::window_end(total, height, view.scroll as int),
        )
    }
}

/// The widgets of the screen, once the log is fitted to its window.
pub open spec fn screen_widgets(
    shown: ProgressScreen,
    config: RunConfig,
    show_hint: bool,
    areas: Areas,
) -> Seq<WidgetView> {
    let inner = areas.top@[1].inside_border();
    seq![
        WidgetView::Paragraph {
            body: BodyView::Lines(
                screen::key_value_lines(
                    shown.key_values,
                    screen::ordered_keys(shown.key_values, text::texts(config.key_order@)),
                ),
            ),
            title: Some(config.window_title@ + " - Stats"@),
            scroll: 0,
            trim: Some(false),
            area: areas.top@[0],
        },
        WidgetView::Frame {
            heading: screen::log_title(
                shown@.log_lines.len(),
                shown@.scroll as nat,
                shown@.limit() as nat,
            ),
            area: areas.top@[1],
        },
        WidgetView::Paragraph {
            body: BodyView::Lines(visible_lines(shown@, inner.height as int)),
            title: None,
            scroll: 0,
            trim: None,
            area: inner,
        },
    ] + screen::gauge_widgets(
        shown.worker_progress,
        shown@.master_progress,
        areas.main@[1],
        areas.workers@,
        areas.main@[2],
    ) + hint_widgets(show_hint, config.persist_exit_hint@, areas.main@[3])
}

/// The screen fitted to the height of its log window.
pub open spec fn fitted(view: ScreenView, log_area: Rect) -> ScreenView {
    (ScreenView { viewport: log_area.inside_border().height as usize, ..view }).clamped()
}

/// Builds the screen in given areas.
pub fn compose(
    shown: &mut ProgressScreen,
    config: &RunConfig,
    my_log_channel_closed: bool,
    areas: &Areas,
) -> (widgets: Vec<Widget>)
    requires
        old(shown).wf(),
        areas.main@.len() == 4,
        areas.top@.len() == 2,
        areas.workers@.len() == old(shown).worker_progress.keys().len(),
    ensures
        final(shown).wf(),
        final(shown)@ == fitted(old(shown)@, areas.top@[1]),
        screen::widget_views(widgets@) == screen_widgets(
            *final(shown),
            *config,
            config.persist_after_channel_close && my_log_channel_closed,
            *areas,
        ),
{
    let show_hint = config.persist_after_channel_close && my_log_channel_closed;
    let mut widgets: Vec<Widget> = Vec::new();
    let lines = screen::ordered_key_value_lines(&shown.key_values, &config.key_order);
    widgets.push(
        Widget::Paragraph {
            body: Body::Lines(lines),
            title: Some(text::join2(config.window_title.as_str(), " - Stats")),
            scroll: 0,
            trim: Some(false),
            area: areas.top[0],
        },
    );
    shown.log_viewport_height = screen::log_inner_height(areas.top[1]);
    shown.clamp_scroll();
    let max_scroll: usize = screen::max_scroll(shown.log_lines.len(), shown.log_viewport_height);
    widgets.push(
        Widget::Frame {
            heading: screen::log_title_text(
                shown.log_lines.len(),
                shown.log_scroll_from_bottom,
                max_scroll,
            ),
            area: areas.top[1],
        },
    );
    let log_inner = screen::block_inner(areas.top[1]);
    let log_lines = screen::visible_log_lines(
        &shown.log_lines,
        shown.log_scroll_from_bottom,
        log_inner.height as usize,
    );
    widgets.push(
        Widget::Paragraph {
            body: Body::Lines(log_lines),
            title: None,
            scroll: 0,
            trim: None,
            area: log_inner,
        },
    );
    let ghost top = screen::widget_views(widgets@);
    screen::push_gauges(
        &mut widgets,
        &shown.worker_progress,
        &shown.master_progress,
        areas.main[1],
        &areas.workers,
        areas.main[2],
    );
    let ghost most = screen::widget_views(widgets@);
    if show_hint {
        widgets.push(
            Widget::Paragraph {
                body: Body::Text(config.persist_exit_hint.clone()),
                title: Some("Program Ended".to_owned()),
                scroll: 0,
                trim: None,
                area: areas.main[3],
            },
        );
    }
    assert(screen::widget_views(widgets@) =~= most + hint_widgets(
        show_hint,
        config.persist_exit_hint@,
        areas.main@[3],
    ));
    assert(screen::widget_views(widgets@) =~= screen_widgets(*shown, *config, show_hint, *areas));
    widgets
}

/// Divides the screen and builds it. How the screen is divided is up to the layout; everything
/// else follows from that.
pub fn draw(
    shown: &mut ProgressScreen,
    config: &RunConfig,
    my_log_channel_closed: bool,
    area: Rect,
) -> (r: (Vec<Widget>, Areas))
    requires
        old(shown).wf(),
        screen::worker_rows_fit(old(shown).worker_progress.keys().len()),
    ensures
        final(shown).wf(),
        r.1.of(
            area,
            config.persist_after_channel_close && my_log_channel_closed,
            old(shown).worker_progress.keys().len(),
        ),
        final(shown)@ == fitted(old(shown)@, r.1.top@[1]),
        screen::widget_views(r.0@) == screen_widgets(
            *final(shown),
            *config,
            config.persist_after_channel_close && my_log_channel_closed,
            r.1,
        ),
{
    let show_hint = config.persist_after_channel_close && my_log_channel_closed;
    let areas = split_screen(area, show_hint, shown.worker_progress.len());
    let widgets = compose(shown, config, my_log_channel_closed, &areas);
    (widgets, areas)
}

// ---------------------------------------------------------------------------
// Laws
// ---------------------------------------------------------------------------

/// A screen begins empty and unscrolled, with the progress of the whole at zero.
pub proof fn screens_begin_empty(name: Seq<char>)
    ensures
        !ScreenView::initial().key_values.contains_key(name),
        !ScreenView::initial().worker_progress.contains_key(name),
        ScreenView::initial().log_lines.len() == 0,
        ScreenView::initial().scroll == 0,
        ScreenView::initial().viewport == 1,
        ScreenView::initial().master_progress.progress.bits == 0,
        ScreenView::initial().master_progress.label == "0%"@,
{
}

/// Each message sets what it tells: a later value takes the place of an earlier one.
pub proof fn messages_set_what_they_tell(view: ScreenView, message: MyLogMessage)
    ensures
        ({
            let after = view.applied(message);
            match message {
                MyLogMessage::Line { message, severity } => {
                    &&& after.log_lines.last().message == message@
                    &&& after.log_lines.last().severity == severity
                },
                MyLogMessage::KeyValuePair { key, value } => {
                    &&& after.key_values.contains_key(key@)
                    &&& after.key_values[key@] == value@
                },
                MyLogMessage::WorkerProgress { worker_name, progress, label } => {
                    &&& after.worker_progress.contains_key(worker_name@)
                    &&& after.worker_progress[worker_name@].progress == progress
                    &&& after.worker_progress[worker_name@].label == label@
                },
                MyLogMessage::MasterProgress { progress, label } => {
                    &&& after.master_progress.progress == progress
                    &&& after.master_progress.label == label@
                },
            }
        }),
{
}

/// No message changes what it does not tell.
pub proof fn messages_keep_all_else(view: ScreenView, message: MyLogMessage, name: Seq<char>)
    ensures
        ({
            let after = view.applied(message);
            &&& !(message is Line) ==> after.log_lines == view.log_lines && after.scroll
                == view.scroll
            &&& !(message is MasterProgress) ==> after.master_progress == view.master_progress
            &&& !(message is KeyValuePair && message->key@ == name) ==> {
                &&& after.key_values.contains_key(name) == view.key_values.contains_key(name)
                &&& view.key_values.contains_key(name) ==> after.key_values[name]
                    == view.key_values[name]
            }
            &&& !(message is WorkerProgress && message->worker_name@ == name) ==> {
                &&& after.worker_progress.contains_key(name) == view.worker_progress.contains_key(
                    name,
                )
                &&& view.worker_progress.contains_key(name) ==> after.worker_progress[name]
                    == view.worker_progress[name]
            }
            &&& after.viewport == view.viewport
        }),
{
}

/// The latest lines stay, a hundred in all, in the order in which they came.
pub proof fn the_latest_lines_stay(view: ScreenView, line: LineView, i: int)
    requires
        view.log_lines.len() <= 100,
    ensures
        ({
            let after = view.with_line(line).log_lines;
            &&& after.len() == (if view.log_lines.len() < 100 {
                view.log_lines.len() + 1
            } else {
                100
            })
            &&& after.last() == line
            &&& 1 <= i < after.len() ==> after[after.len() - 1 - i]
                == view.log_lines[view.log_lines.len() - i]
        }),
{
    log_lines::the_last_hundred_stay(view.log_lines.push(line), i);
    log_lines::the_last_hundred_stay(view.log_lines.push(line), 0);
}

/// A log that is not scrolled follows its lines.
pub proof fn an_unscrolled_log_follows(view: ScreenView, line: LineView)
    requires
        view.scroll == 0,
    ensures
        view.with_line(line).scroll == 0,
{
}

/// The log scrolls by as many lines as it is asked, from its last line to its first, and no
/// further; nothing else changes.
pub proof fn the_log_scrolls_between_its_ends(view: ScreenView, amount: usize)
    requires
        view.viewport >= 1,
        view.viewport <= view.log_lines.len(),
        view.scroll + view.viewport <= view.log_lines.len(),
        view.log_lines.len() + amount <= usize::MAX,
    ensures
        ({
            let up = view.scrolled_up(amount);
            let down = view.scrolled_down(amount);
            &&& view.scroll + amount + view.viewport <= view.log_lines.len() ==> up.scroll
                == view.scroll + amount && up.scrolled_down(amount) == view
            &&& view.scroll + amount + view.viewport >= view.log_lines.len() ==> up.scroll
                == view.log_lines.len() - view.viewport
            &&& view.scroll >= amount ==> down.scroll == view.scroll - amount
                && down.scrolled_up(amount) == view
            &&& view.scroll <= amount ==> down.scroll == 0
            &&& up.log_lines == view.log_lines
            &&& down.log_lines == view.log_lines
            &&& up.key_values == view.key_values
            &&& down.key_values == view.key_values
            &&& up.worker_progress == view.worker_progress
            &&& down.worker_progress == view.worker_progress
            &&& up.master_progress == view.master_progress
            &&& down.master_progress == view.master_progress
            &&& up.viewport == view.viewport
            &&& down.viewport == view.viewport
        }),
{
}

/// The key Q quits in either case, with or without other keys; nothing else does.
pub proof fn only_q_quits(event: ScreenEvent)
    ensures
        !(event is Key) ==> !quits(event),
        event is Key && !(event->Key_0.code is Char) ==> !quits(event),
        event is Key && event->Key_0.code is Char ==> (quits(event) <==> (
        event->Key_0.code->Char_0 == 'q' || event->Key_0.code->Char_0 == 'Q')),
{
}

/// A run never goes back: a channel that was closed stays closed, and a wish to end stays. Only
/// the end of the messages closes the channel, and the wish to end closes it too.
pub proof fn runs_never_go_back(state: RunState, wake: Wake)
    ensures
        state.woken(wake).my_log_channel_closed == (state.my_log_channel_closed || wake
            == Wake::ChannelClosed || wake == Wake::Shutdown),
        state.woken(wake).shutdown_requested == (state.shutdown_requested || wake
            == Wake::Shutdown),
{
}

/// The hint is shown on three rows at the bottom where it is asked for, and takes no row
/// otherwise; all else is the same.
pub proof fn the_hint_is_shown_where_it_is_asked_for(
    shown: ProgressScreen,
    config: RunConfig,
    areas: Areas,
)
    ensures
        ({
            let with_hint = screen_widgets(shown, config, true, areas);
            let without = screen_widgets(shown, config, false, areas);
            &&& with_hint.drop_last() == without
            &&& with_hint.last() == (WidgetView::Paragraph {
                body: BodyView::Text(config.persist_exit_hint@),
                title: Some("Program Ended"@),
                scroll: 0,
                trim: None,
                area: areas.main@[3],
            })
        }),
        bottom_rules(true) == seq![SizeRule::Length(3)],
        bottom_rules(false) == seq![SizeRule::Length(0)],
{
    let with_hint = screen_widgets(shown, config, true, areas);
    let without = screen_widgets(shown, config, false, areas);
    assert(with_hint.drop_last() =~= without);
}

/// The keys and values stand on the left, the log in its frame on the right, and the gauges below.
pub proof fn screens_show_all_their_parts(
    shown: ProgressScreen,
    config: RunConfig,
    areas: Areas,
    i: int,
)
    requires
        shown.wf(),
    ensures
        ({
            let all = screen_widgets(shown, config, false, areas);
            let names = shown.worker_progress.keys();
            let limit = (if shown@.log_lines.len() as int >= shown@.viewport as int {
                shown@.log_lines.len() - shown@.viewport
            } else {
                0
            }) as nat;
            &&& all.len() == 5 + names.len()
            &&& all[0] == (WidgetView::Paragraph {
                body: BodyView::Lines(
                    screen::key_value_lines(
                        shown.key_values,
                        screen::ordered_keys(shown.key_values, text::texts(config.key_order@)),
                    ),
                ),
                title: Some(config.window_title@ + " - Stats"@),
                scroll: 0,
                trim: Some(false),
                area: areas.top@[0],
            })
            &&& shown@.viewport >= 1 ==> all[1] == (WidgetView::Frame {
                heading: "Log ("@ + crate::decimal::decimal(shown@.log_lines.len()) + "/"@
                    + crate::decimal::decimal(100) + ", offset "@ + crate::decimal::decimal(
                    shown@.scroll as nat,
                ) + "/"@ + crate::decimal::decimal(limit) + ")"@,
                area: areas.top@[1],
            })
            &&& all[2] == (WidgetView::Paragraph {
                body: BodyView::Lines(
                    visible_lines(shown@, areas.top@[1].inside_border().height as int),
                ),
                title: None,
                scroll: 0,
                trim: None,
                area: areas.top@[1].inside_border(),
            })
            &&& all[3] == (WidgetView::Frame { heading: "Endpoints"@, area: areas.main@[1] })
            &&& 0 <= i < names.len() ==> all[4 + i] == (WidgetView::Gauge {
                label: names[i] + ": "@ + shown.worker_progress@[names[i]].label,
                progress: shown.worker_progress@[names[i]].progress,
                colour: screen::Colour::LightBlue,
                title: None,
                area: areas.workers@[i],
            })
            &&& all.last() == (WidgetView::Gauge {
                label: "Master: "@ + shown@.master_progress.label,
                progress: shown@.master_progress.progress,
                colour: screen::Colour::Green,
                title: Some("Master"@),
                area: areas.main@[2],
            })
        }),
{
    screen::gauges_show_every_worker(
        shown.worker_progress,
        shown@.master_progress,
        areas.main@[1],
        areas.workers@,
        areas.main@[2],
        i,
    );
    let gauges = screen::gauge_widgets(
        shown.worker_progress,
        shown@.master_progress,
        areas.main@[1],
        areas.workers@,
        areas.main@[2],
    );
    let all = screen_widgets(shown, config, false, areas);
    assert(all[3] == gauges[0]);
    assert(all.last() == gauges.last());
    if 0 <= i < shown.worker_progress.keys().len() {
        assert(all[4 + i] == gauges[i + 1]);
    }
}

/// A log in a window shows the lines that end as many lines before the last one as it is scrolled,
/// as many as the window is high; one that fits shows all its lines; an empty one says so.
pub proof fn logs_are_shown_through_their_window(view: ScreenView, height: int, i: int)
    requires
        height >= 1,
    ensures
        ({
            let total = view.log_lines.len() as int;
            let shown = visible_lines(view, height);
            &&& total == 0 ==> shown == seq![
                screen::ScreenLineView { text: "No logs yet"@, colour: None },
            ]
            &&& 0 < total <= height ==> shown.len() == total
            &&& total >= height ==> shown.len() == height
            &&& 0 <= i < height && view.scroll + height <= total ==> shown[i].text
                == view.log_lines[total - view.scroll - height + i].message
            &&& 0 <= i < total <= height ==> shown[i].text == view.log_lines[i].message
        }),
{
    let total = view.log_lines.len() as int;
    screen::logs_show_every_line(view.log_lines, i);
    if total > 0 {
        let from = screen::window_start(total, height, view.scroll as int);
        let to = screen::window_end(total, height, view.scroll as int);
        screen::parts_of_logs_show_their_lines(view.log_lines, from, to, i);
    }
}

/// A log takes the height inside its border, and gives up only as much of its scroll as goes
/// beyond its lines.
pub proof fn fitting_gives_up_only_what_it_must(view: ScreenView, log_area: Rect)
    requires
        log_area.height >= 3,
    ensures
        ({
            let height = log_area.height - 2;
            let total = view.log_lines.len();
            let after = fitted(view, log_area);
            &&& after.viewport == height
            &&& view.scroll + height <= total ==> after.scroll == view.scroll
            &&& view.scroll + height > total && total >= height && total <= usize::MAX
                ==> after.scroll == total - height
            &&& total <= height ==> after.scroll == 0
            &&& after.log_lines == view.log_lines
            &&& after.key_values == view.key_values
            &&& after.worker_progress == view.worker_progress
            &&& after.master_progress == view.master_progress
        }),
{
}

/// The screen is drawn ten times a second; when the program has ended it tells how to leave.
pub proof fn screens_tell_how_to_leave()
    ensures
        DEFAULT_REDRAW_INTERVAL_MS * 10 == 1000,
        DEFAULT_PERSIST_EXIT_HINT@ == "All tasks are done. Press Q to exit."@,
{
}

}
