use research_utility::float_bits::Float32;
use research_utility::log_lines::{LogLines, ProgressLogLine};
use research_utility::message::{MyLogMessage, Severity, TuiMessage};
use research_utility::progress_screen;
use research_utility::progress_screen::{
    line_for_log_file, ProgressScreen, RunConfig, RunState, RunStep, Wake,
    PROGRESS_SCREEN_KEY_ORDER,
};
use research_utility::progress_tui_client;
use research_utility::progress_tui_client::ClientPlan;
use research_utility::progress_tui_protocol::{
    ProgressClientMessage, ProgressServerMessage, ProgressStats,
};
use research_utility::progress_tui_reader;
use research_utility::progress_tui_reader::{
    AfterScript, RedrawPlan, ScriptOutcome, REFRESH_NOTICE_NANOS,
};
use research_utility::replay_engine::{InputActions, PlaybackStatus, RefreshResult};
use research_utility::screen::{
    log_inner_height, log_inner_width, max_scroll, ordered_key_value_lines, rect_contains,
    rendered_log_lines, visible_log_lines, wrapped_lines_height, Body, Colour, Rect, ScreenLine,
    TopWindows, Widget, MAX_SCREEN_WIDTH,
};
use research_utility::screen_input::{Key, KeyEvent, ScreenEvent};
use research_utility::text_map::TextMap;

fn s(x: &str) -> String {
    x.to_string()
}

fn float(f: f32) -> Float32 {
    Float32 { bits: f.to_bits() }
}

fn rect(x: u16, y: u16, width: u16, height: u16) -> Rect {
    Rect { x, y, width, height }
}

fn key(code: Key) -> ScreenEvent {
    ScreenEvent::Key(KeyEvent { code, pressed: true, control: false, alt: false })
}

fn with_control(c: char) -> ScreenEvent {
    ScreenEvent::Key(KeyEvent {
        code: Key::Char(c),
        pressed: true,
        control: true,
        alt: false,
    })
}

fn texts(body: &Body) -> Vec<String> {
    match body {
        Body::Lines(lines) => lines.iter().map(|l| l.text.clone()).collect(),
        Body::Text(text) => vec![text.clone()],
    }
}

/// The title, the texts, the scroll and the area of a widget.
fn shown(widget: &Widget) -> (String, Vec<String>, u16, Rect) {
    match widget {
        Widget::Paragraph { body, title, scroll, area, .. } => {
            (title.clone().unwrap_or_default(), texts(body), *scroll, *area)
        }
        Widget::Frame { heading, area } => (heading.clone(), vec![], 0, *area),
        Widget::Gauge { label, title, area, .. } => {
            (title.clone().unwrap_or_default(), vec![label.clone()], 0, *area)
        }
    }
}

fn plain(text: &str) -> ScreenLine {
    ScreenLine { text: s(text), colour: None }
}

fn log_of(n: usize) -> LogLines {
    let mut lines = LogLines::new();
    for i in 0..n {
        lines.push(ProgressLogLine { message: format!("l{i}"), severity: Severity::Warning });
    }
    lines
}

#[test]
fn areas_and_borders() {
    let area = rect(2, 3, 10, 4);
    assert!(rect_contains(area, 2, 3));
    assert!(rect_contains(area, 11, 6));
    assert!(!rect_contains(area, 12, 6));
    assert!(!rect_contains(area, 11, 7));
    assert!(!rect_contains(area, 1, 3));
    assert!(!rect_contains(rect(u16::MAX, 0, 5, 5), u16::MAX, 0));
    assert_eq!((log_inner_height(area), log_inner_width(area)), (2, 8));
    assert_eq!(log_inner_height(rect(0, 0, 1, 1)), 0);
    assert_eq!(max_scroll(10, 4), 6);
    assert_eq!(max_scroll(10, 0), 9);
    assert_eq!(max_scroll(3, 4), 0);
}

#[test]
fn lines_are_wrapped_at_words() {
    let lines = vec![plain("aaa bbb ccc"), plain("d")];
    assert_eq!(wrapped_lines_height(&lines, rect(0, 0, 40, 9), false), 2);
    assert_eq!(wrapped_lines_height(&lines, rect(0, 0, 7, 9), false), 4);
    assert_eq!(wrapped_lines_height(&lines, rect(0, 0, 9, 9), false), 3);
    assert_eq!(wrapped_lines_height(&lines, rect(0, 0, 2, 9), false), 0);
    let coloured = vec![ScreenLine { text: s("aaa bbb ccc"), colour: Some(Colour::Red) }];
    assert_eq!(wrapped_lines_height(&coloured, rect(0, 0, 7, 9), true), 3);
}

#[test]
fn lines_are_wrapped_on_the_widest_screen() {
    assert_eq!(MAX_SCREEN_WIDTH, 16_383);
    let widest = rect(0, 0, MAX_SCREEN_WIDTH, 9);
    let word = vec![plain(&"x".repeat(40_000))];
    assert_eq!(wrapped_lines_height(&word, widest, false), 3);
    assert_eq!(wrapped_lines_height(&word, widest, true), 3);
    for (blanks, letters) in [(16_381, 16_381), (16_380, 16_382), (40_000, 3), (1, 40_000)] {
        let mixed = " ".repeat(blanks) + &"x".repeat(letters);
        let lines = vec![plain(&mixed.repeat(3))];
        assert!(wrapped_lines_height(&lines, widest, false) >= 3);
        assert!(wrapped_lines_height(&lines, widest, true) >= 1);
    }
}

#[test]
fn log_lines_on_a_screen() {
    assert_eq!(rendered_log_lines(&LogLines::new())[0].text, "No logs yet");
    assert_eq!(visible_log_lines(&LogLines::new(), 4, 4)[0].text, "No logs yet");
    let log = log_of(10);
    let all = rendered_log_lines(&log);
    assert_eq!(all.len(), 10);
    assert_eq!(all[9].colour, Some(Colour::Yellow));
    let window = |scroll: usize, height: usize| -> Vec<String> {
        visible_log_lines(&log, scroll, height).into_iter().map(|l| l.text).collect()
    };
    assert_eq!(window(0, 3), vec!["l7", "l8", "l9"]);
    assert_eq!(window(2, 3), vec!["l5", "l6", "l7"]);
    assert_eq!(window(99, 3), vec!["l0", "l1", "l2"]);
    assert_eq!(window(0, 0), vec!["l9"]);
    assert_eq!(window(0, 20).len(), 10);
}

#[test]
fn known_keys_come_first() {
    let mut map: TextMap<String> = TextMap::new();
    for (k, v) in [("zeta", "1"), ("status", "2"), ("alpha", "3")] {
        map.insert(s(k), s(v));
    }
    let order = vec![s("status"), s("missing")];
    let lines: Vec<String> =
        ordered_key_value_lines(&map, &order).into_iter().map(|l| l.text).collect();
    assert_eq!(lines, vec!["status: 2", "alpha: 3", "zeta: 1"]);
}

#[test]
fn the_window_under_the_mouse_is_scrolled() {
    let mut windows = TopWindows::new();
    windows.set_top_window_areas(rect(0, 0, 10, 10), rect(10, 0, 10, 10));
    windows.scroll_top_window_up(3, 3, 5);
    windows.scroll_top_window_up(12, 3, 7);
    windows.scroll_top_window_up(30, 3, 9);
    assert_eq!(windows.stats_scroll_from_bottom, 5);
    assert_eq!(windows.log_scroll_from_bottom, 7);
    windows.scroll_top_window_down(12, 3, 7);
    windows.scroll_top_window_down(3, 3, 9);
    assert_eq!(windows, {
        let mut fresh = TopWindows::new();
        fresh.set_top_window_areas(rect(0, 0, 10, 10), rect(10, 0, 10, 10));
        fresh
    });
    windows.scroll_stats_up(usize::MAX);
    windows.scroll_stats_up(1);
    assert_eq!(windows.stats_scroll_from_bottom, usize::MAX);
    windows.fit_stats(rect(0, 0, 10, 6), 9);
    assert_eq!((windows.stats_viewport_height, windows.stats_scroll_from_bottom), (4, 5));
    windows.scroll_log_up(3);
    windows.fit_log(rect(10, 0, 10, 2), 3);
    assert_eq!((windows.log_viewport_height, windows.log_scroll_from_bottom), (0, 2));
}

fn messages() -> Vec<TuiMessage> {
    vec![
        TuiMessage::State { state: s("busy") },
        TuiMessage::WindowName { window_name: s("Run") },
        TuiMessage::KeyValuePair { key: s("b"), value: s("2") },
        TuiMessage::KeyValuePair { key: s("status"), value: s("ok") },
        TuiMessage::WorkerProgress {
            worker_name: s("w2"),
            progress: float(0.5),
            label: s("half"),
        },
        TuiMessage::WorkerProgress {
            worker_name: s("w1"),
            progress: float(0.25),
            label: s("quarter"),
        },
        TuiMessage::MasterProgress { progress: float(0.75), label: s("most") },
        TuiMessage::Line { message: s("hello"), severity: Severity::Error },
    ]
}

#[test]
fn the_client_shows_what_the_server_sends() {
    let mut client = progress_tui_client::ProgressScreenState::new();
    let mut stats = ProgressStats::default();
    for message in messages() {
        stats.apply_message(&message);
    }
    assert!(!client.take_server_message(Some(ProgressServerMessage::Snapshot(stats))));
    assert_eq!(client.stats.window_name, "Run");
    for message in messages() {
        assert!(!client.take_server_message(Some(ProgressServerMessage::Update(message))));
    }
    assert!(client.take_server_message(None));
    assert_eq!(client.log_lines.len(), 1);

    let (widgets, areas) = progress_tui_client::draw(&mut client, true, rect(0, 0, 80, 30));
    let heights: Vec<u16> = areas.main.iter().map(|a| a.height).collect();
    assert_eq!(heights, vec![17, 4, 3, 3, 3]);
    assert_eq!(areas.top[0], rect(0, 0, 40, 17));
    assert_eq!(areas.top[1], rect(40, 0, 40, 17));
    assert_eq!(areas.left[0], rect(0, 0, 40, 3));
    assert_eq!(areas.workers[0], rect(1, 18, 78, 1));
    assert_eq!(areas.workers[1], rect(1, 19, 78, 1));
    let shown: Vec<(String, Vec<String>, u16, Rect)> = widgets.iter().map(shown).collect();
    assert_eq!(shown.len(), 9);
    assert_eq!(shown[0], (s("State"), vec![s("busy")], 0, areas.left[0]));
    assert_eq!(shown[1].0, "Run - Stats (offset 0/0)");
    assert_eq!(shown[1].1, vec!["status: ok", "b: 2"]);
    assert_eq!(shown[2].0, "Log (1/100, offset 0/0)");
    assert_eq!(shown[2].1, vec!["hello"]);
    assert_eq!(shown[3].0, "Endpoints");
    assert_eq!(shown[4].1, vec!["w1: quarter"]);
    assert_eq!(shown[5], (s(""), vec![s("w2: half")], 0, areas.workers[1]));
    assert_eq!(shown[6], (s("Master"), vec![s("Master: most")], 0, areas.main[2]));
    assert_eq!(shown[7].0, "Disconnected");
    assert_eq!(shown[7].1, vec!["Server disconnected. Ctrl+C to exit."]);
    assert_eq!(shown[8].0, "Command (Enter to send, Esc to clear, Ctrl+C to exit)");
    assert_eq!(shown[8].3, areas.main[4]);
    match &widgets[4] {
        Widget::Gauge { progress, colour, .. } => {
            assert_eq!(*progress, float(0.25));
            assert_eq!(*colour, Colour::LightBlue);
        }
        _ => panic!("expected a gauge"),
    }

    let (widgets, areas) = progress_tui_client::draw(&mut client, false, rect(0, 0, 80, 30));
    assert_eq!(widgets.len(), 8);
    match &widgets[7] {
        Widget::Paragraph { area, .. } => assert_eq!(*area, areas.main[3]),
        _ => panic!("expected the command line"),
    }
}

#[test]
fn the_client_takes_commands() {
    let mut client = progress_tui_client::ProgressScreenState::new();
    let mut actions = progress_tui_client::InputActions::none();
    let mut take = |client: &mut progress_tui_client::ProgressScreenState, event: ScreenEvent| {
        progress_tui_client::take_event(client, &mut actions, event)
    };
    for c in " run é".chars() {
        assert!(!take(&mut client, key(Key::Char(c))));
    }
    take(&mut client, key(Key::Backspace));
    take(&mut client, with_control('x'));
    take(
        &mut client,
        ScreenEvent::Key(KeyEvent {
            code: Key::Char('y'),
            pressed: false,
            control: false,
            alt: false,
        }),
    );
    assert_eq!(client.command_input, " run ");
    take(&mut client, key(Key::Enter));
    assert_eq!(client.command_input, "");
    take(&mut client, key(Key::Char(' ')));
    take(&mut client, key(Key::Enter));
    take(&mut client, key(Key::Char('z')));
    take(&mut client, key(Key::Esc));
    take(&mut client, key(Key::Backspace));
    assert_eq!(client.command_input, "");
    assert!(take(&mut client, with_control('C')));
    assert!(actions.quit);
    assert_eq!(actions.commands, vec!["run"]);
}

#[test]
fn a_scrolled_client_log_stays_on_its_lines() {
    let mut client = progress_tui_client::ProgressScreenState::new();
    client.windows.scroll_log_up(4);
    client.handle_message(TuiMessage::Line { message: s("x"), severity: Severity::Info });
    assert_eq!(client.windows.log_scroll_from_bottom, 5);
    client.windows.scroll_log_down(9);
    client.handle_message(TuiMessage::Line { message: s("x"), severity: Severity::Info });
    assert_eq!(client.windows.log_scroll_from_bottom, 0);
    for i in 0..120 {
        client.handle_message(TuiMessage::Line { message: format!("{i}"), severity: Severity::Info });
    }
    assert_eq!(client.log_lines.len(), 100);
    assert_eq!(client.log_lines.line(0).message, "20");
}

#[test]
fn the_reader_shows_the_playback() {
    let mut state = progress_tui_reader::ProgressScreenState::new();
    for i in 0..30 {
        let key = format!("k{i:02}");
        state.replay.stats.key_values.insert(key, s("v"));
    }
    let mut playback = PlaybackStatus {
        frame_count: 9,
        current_frame: 3,
        speed_frames_per_half_second: -2,
        paused: false,
    };
    state.windows.scroll_stats_up(4);
    state.show_refresh_notice(s("notice"), Colour::Green);
    let (widgets, areas) = progress_tui_reader::draw(
        &mut state,
        playback,
        "1.5",
        REFRESH_NOTICE_NANOS,
        rect(0, 0, 60, 24),
    );
    let heights: Vec<u16> = areas.main.iter().map(|a| a.height).collect();
    assert_eq!(heights, vec![14, 2, 3, 5]);
    // Thirty rows in a window of twelve, four rows from the bottom.
    let stats = shown(&widgets[0]);
    assert_eq!(stats.0, "Progress Screen - Stats (offset 4/18)");
    assert_eq!(stats.2, 14);
    assert_eq!(shown(&widgets[1]).1, vec!["No logs yet"]);
    let lines = shown(widgets.last().unwrap());
    assert_eq!(lines.0, "Playback");
    assert_eq!(
        lines.1,
        vec![
            "Replay: (4/9)",
            "t=1.5s | speed -2 frame/0.5s | Space pause+refresh | <-/-> +/-1 frame/0.5s",
            "notice",
        ]
    );
    playback.paused = true;
    playback.frame_count = 0;
    let (widgets, _) = progress_tui_reader::draw(
        &mut state,
        playback,
        "0.0",
        REFRESH_NOTICE_NANOS + 1,
        rect(0, 0, 60, 24),
    );
    let lines = shown(widgets.last().unwrap());
    assert_eq!(
        lines.1,
        vec![
            "Replay: (0/0)",
            "t=0.0s | speed 0 frame/0.5s (paused) | Space pause+refresh | <-/-> +/-1 frame/0.5s",
        ]
    );
    assert!(state.refresh_notice.is_none());
    state.apply_replay_state(None);
    assert_eq!(state.replay.stats.key_values.len(), 0);
}

#[test]
fn the_reader_takes_keys() {
    let mut windows = TopWindows::new();
    windows.set_top_window_areas(rect(0, 0, 10, 10), rect(10, 0, 10, 10));
    let events = vec![
        key(Key::Right),
        key(Key::Right),
        key(Key::Left),
        key(Key::Char(' ')),
        key(Key::Char('x')),
        ScreenEvent::ScrollUp { x: 1, y: 1 },
        ScreenEvent::Other,
        with_control('q'),
        key(Key::Left),
    ];
    let actions = progress_tui_reader::handle_input_events(&mut windows, &events);
    assert_eq!(
        actions,
        InputActions {
            quit: true,
            toggle_pause: true,
            speed_delta_steps: 1,
            refresh_file: true
        }
    );
    assert_eq!(windows.stats_scroll_from_bottom, 1);
    let actions =
        progress_tui_reader::handle_input_events(&mut windows, &vec![key(Key::Char('P'))]);
    assert!(actions.toggle_pause && !actions.refresh_file);
    assert_eq!(progress_tui_reader::redraw_plan(actions, true), RedrawPlan::Draw);
    let refresh = InputActions { refresh_file: true, ..actions };
    assert_eq!(progress_tui_reader::redraw_plan(refresh, true), RedrawPlan::SyncAndRefresh);
    assert_eq!(progress_tui_reader::redraw_plan(refresh, false), RedrawPlan::Refresh);
    let quit = InputActions { quit: true, ..refresh };
    assert_eq!(progress_tui_reader::redraw_plan(quit, true), RedrawPlan::Quit);
}

#[test]
fn notices_of_the_reader() {
    let grown = RefreshResult { previous_frame_count: 3, current_frame_count: 12 };
    assert_eq!(
        progress_tui_reader::refresh_text(true, grown),
        "Synced+refreshed: 3 -> 12 frames"
    );
    let same = RefreshResult { previous_frame_count: 12, current_frame_count: 12 };
    assert_eq!(progress_tui_reader::refresh_text(false, same), "Refreshed file: 12 frames");
    assert_eq!(progress_tui_reader::sync_failed_text("e"), "Sync script failed: e");
    assert_eq!(progress_tui_reader::refresh_failed_text("e"), "Refresh failed: e");
    assert_eq!(
        progress_tui_reader::missing_log_text("/x"),
        "progress log file does not exist: /x"
    );
    let check = progress_tui_reader::check_sync_script;
    assert!(check("a.sh", &ScriptOutcome::Succeeded).is_ok());
    assert_eq!(
        check("a.sh", &ScriptOutcome::NotRun(s("e"))).unwrap_err(),
        "failed to execute script 'a.sh': e"
    );
    let failed = ScriptOutcome::Failed { status: s("exit status: 2"), stderr: b" \n".to_vec() };
    assert_eq!(
        check("a.sh", &failed).unwrap_err(),
        "script 'a.sh' exited with status exit status: 2"
    );
    let failed = ScriptOutcome::Failed { status: s("exit status: 2"), stderr: b" bad\n".to_vec() };
    assert_eq!(
        check("a.sh", &failed).unwrap_err(),
        "script 'a.sh' exited with status exit status: 2: bad"
    );
    let failed = ScriptOutcome::Failed { status: s("signal: 9"), stderr: vec![b'x', 0xff, b'y'] };
    assert_eq!(
        check("a.sh", &failed).unwrap_err(),
        "script 'a.sh' exited with status signal: 9: x\u{fffd}y"
    );
    assert_eq!(
        progress_tui_reader::failure_text("a", "s", "\n"),
        "script 'a' exited with status s"
    );
}

fn line(message: &str) -> MyLogMessage {
    MyLogMessage::Line { message: s(message), severity: Severity::Info }
}

#[test]
fn the_progress_screen_in_the_same_process() {
    assert_eq!(PROGRESS_SCREEN_KEY_ORDER, ["status"]);
    let config = RunConfig::new(s("Title"), true);
    let mut screen = ProgressScreen::new();
    for i in 0..20 {
        screen.handle_message(line(&format!("l{i}")));
    }
    screen.handle_message(MyLogMessage::KeyValuePair { key: s("status"), value: s("ok") });
    screen.handle_message(MyLogMessage::KeyValuePair { key: s("a"), value: s("1") });
    screen.handle_message(MyLogMessage::WorkerProgress {
        worker_name: s("w"),
        progress: float(0.5),
        label: s("half"),
    });
    screen.handle_message(MyLogMessage::MasterProgress { progress: float(1.0), label: s("all") });
    let (widgets, areas) =
        progress_screen::draw(&mut screen, &config, false, rect(0, 0, 60, 16));
    let heights: Vec<u16> = areas.main.iter().map(|a| a.height).collect();
    assert_eq!(heights, vec![10, 3, 3, 0]);
    assert_eq!(widgets.len(), 6);
    assert_eq!(shown(&widgets[0]).0, "Title - Stats");
    assert_eq!(shown(&widgets[0]).1, vec!["status: ok", "a: 1"]);
    assert_eq!(shown(&widgets[1]).0, "Log (20/100, offset 0/12)");
    assert_eq!(shown(&widgets[2]).1[0], "l12");
    // The border takes one cell on each side.
    assert_eq!(shown(&widgets[2]).3, rect(31, 1, 28, 8));

    assert!(!screen.take_event(ScreenEvent::ScrollUp { x: 0, y: 0 }));
    screen.scroll_log_up(99);
    assert_eq!(screen.log_scroll_from_bottom, 12);
    screen.scroll_log_down(2);
    let (before, _) = progress_screen::draw(&mut screen, &config, false, rect(0, 0, 60, 16));
    screen.handle_message(line("new"));
    let (widgets, areas) = progress_screen::draw(&mut screen, &config, true, rect(0, 0, 60, 19));
    assert_eq!(shown(&widgets[2]).1, shown(&before[2]).1);
    assert_eq!(shown(&widgets[1]).0, "Log (21/100, offset 11/13)");
    assert_eq!(
        shown(widgets.last().unwrap()),
        (
            s("Program Ended"),
            vec![s("All tasks are done. Press Q to exit.")],
            0,
            areas.main[3]
        )
    );
    assert!(screen.take_event(key(Key::Char('q'))));
    assert!(!screen.take_event(key(Key::Esc)));
    assert_eq!(line_for_log_file(&line("x")).as_deref(), Some("x"));
    let pair = MyLogMessage::KeyValuePair { key: s("k"), value: s("v") };
    assert_eq!(line_for_log_file(&pair), None);
}

#[test]
fn the_progress_screen_ends_with_its_messages() {
    let mut run = RunState::new();
    assert_eq!(run.wake(Wake::Tick, false), RunStep::Draw);
    assert_eq!(run.wake(Wake::Message, false), RunStep::Draw);
    assert!(!run.my_log_channel_closed);
    assert_eq!(run.wake(Wake::ChannelClosed, false), RunStep::End);
    let mut run = RunState::new();
    assert_eq!(run.wake(Wake::ChannelClosed, true), RunStep::Draw);
    assert_eq!((run.my_log_channel_closed, run.shutdown_requested), (true, false));
    assert_eq!(run.wake(Wake::Shutdown, true), RunStep::Draw);
    assert!(run.shutdown_requested);
    assert_eq!(run.wake(Wake::Shutdown, false), RunStep::End);
}

#[test]
fn a_client_asks_first_and_sends_its_commands_in_order() {
    assert!(matches!(progress_tui_client::first_message(), ProgressClientMessage::SnapshotRequest));
    let actions = |quit| progress_tui_client::InputActions { quit, commands: vec![s("a"), s("b")] };
    assert!(matches!(progress_tui_client::client_plan(actions(true), true), ClientPlan::Quit));
    assert!(matches!(progress_tui_client::client_plan(actions(true), false), ClientPlan::Quit));
    for tick in [false, true] {
        match progress_tui_client::client_plan(actions(false), tick) {
            ClientPlan::Go { commands, draw } => {
                assert_eq!(commands, vec![s("a"), s("b")]);
                assert_eq!(draw, tick);
            }
            ClientPlan::Quit => panic!("no one quits"),
        }
    }
    match progress_tui_client::command_message(s("stop")) {
        ProgressClientMessage::SubmitCommand { command } => assert_eq!(command, "stop"),
        ProgressClientMessage::SnapshotRequest => panic!("a command is no request"),
    }
}

#[test]
fn notices_of_refreshes_and_scripts() {
    let counts = RefreshResult { previous_frame_count: 3, current_frame_count: 12 };
    let done = progress_tui_reader::refresh_notice(true, Ok(counts));
    assert_eq!(done.message, "Synced+refreshed: 3 -> 12 frames");
    assert_eq!(done.colour, Colour::Green);
    let failed = progress_tui_reader::refresh_notice(true, Err(s("e")));
    assert_eq!((failed.message.as_str(), failed.colour), ("Refresh failed: e", Colour::Red));
    assert!(matches!(progress_tui_reader::after_sync_script(Ok(())), AfterScript::Refresh));
    match progress_tui_reader::after_sync_script(Err(s("e"))) {
        AfterScript::ShowAndStop(notice) => {
            assert_eq!(notice.message, "Sync script failed: e");
            assert_eq!(notice.colour, Colour::Red);
        }
        AfterScript::Refresh => panic!("a script that failed ends the refresh"),
    }
}
