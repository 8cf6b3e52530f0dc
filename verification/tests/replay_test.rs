use research_utility::float_bits::{Float32, Float64};
use research_utility::message::{Severity, TuiMessage};
use research_utility::progress_tui_logger::{
    delete_worker_progress_bar, log_error, log_exit_hint, log_info, log_key_value_pair,
    log_master_progress, log_message, log_state, log_warning, log_window_name,
    log_worker_progress, ProgressLogFrame, ProgressTuiLogger,
};
use research_utility::replay_engine::{
    Advance, AdvancePhase, InputActions, PlaybackStatus, ReplayEngine,
};
use research_utility::replay_state::ReplayFrameState;

fn float(f: f32) -> Float32 {
    Float32 { bits: f.to_bits() }
}

fn seconds(f: f64) -> Float64 {
    Float64 { bits: f.to_bits() }
}

fn s(x: &str) -> String {
    x.to_string()
}

fn flush(logger: &mut Option<ProgressTuiLogger>, time: f64) -> Option<ProgressLogFrame> {
    let running = logger.as_mut().expect("the logger runs");
    let pending = running.flush_frame_if_needed(seconds(time))?;
    running.frame_written(pending.snapshot);
    Some(pending.frame)
}

#[test]
fn messages_without_a_logger_come_back() {
    let mut logger: Option<ProgressTuiLogger> = None;
    let printed = log_info(&mut logger, s("hello")).expect("printed");
    assert_eq!(printed.to_string(""), "INFO: hello");
    assert!(log_worker_progress(&mut logger, s("w"), float(7.0), s("l")).is_some());
}

#[test]
fn first_flush_of_an_idle_logger_writes_nothing() {
    let mut logger = Some(ProgressTuiLogger::new());
    assert!(flush(&mut logger, 0.5).is_none());
    assert!(log_state(&mut logger, s("")).is_none());
    assert!(flush(&mut logger, 1.0).is_none());
}

#[test]
fn frames_hold_what_changed() {
    let mut logger = Some(ProgressTuiLogger::new());
    log_state(&mut logger, s("Training wrapper started"));
    log_key_value_pair(&mut logger, s("checkpoint_dir"), s("/tmp/checkpoints"));
    log_error(&mut logger, s("Training failed: torchrun exited with code 1"));
    log_worker_progress(&mut logger, s("w2"), float(0.5), s("half"));
    log_worker_progress(&mut logger, s("w1"), float(0.25), s("quarter"));
    let frame = flush(&mut logger, 0.5).expect("something changed");
    assert_eq!(frame.elapsed_seconds, seconds(0.5));
    assert_eq!(frame.state.as_deref(), Some("Training wrapper started"));
    assert_eq!(frame.window_name, None);
    assert_eq!(frame.key_values, vec![(s("checkpoint_dir"), s("/tmp/checkpoints"))]);
    let names: Vec<&str> = frame.worker_progress.iter().map(|(n, _)| n.as_str()).collect();
    assert_eq!(names, vec!["w1", "w2"]);
    assert_eq!(frame.log_lines.len(), 1);
    assert_eq!(frame.log_lines[0].severity, Severity::Error);
    assert!(frame.master_progress.is_none());

    assert!(flush(&mut logger, 1.0).is_none());
    // A zero of the other sign is no change.
    log_master_progress(&mut logger, float(-0.0), s("0%"));
    assert!(flush(&mut logger, 1.5).is_none());
    delete_worker_progress_bar(&mut logger, s("w1"));
    log_window_name(&mut logger, s("Run"));
    log_exit_hint(&mut logger, s("bye"));
    log_warning(&mut logger, s("careful"));
    let frame = flush(&mut logger, 2.0).expect("something changed");
    assert_eq!(frame.deleted_workers, vec![s("w1")]);
    assert!(frame.worker_progress.is_empty());
    assert_eq!(frame.exit_hint.as_deref(), Some("bye"));
    assert!(!frame.is_empty());
}

#[test]
fn a_failed_write_is_made_up_for() {
    let mut logger = Some(ProgressTuiLogger::new());
    log_state(&mut logger, s("one"));
    log_info(&mut logger, s("lost"));
    let running = logger.as_mut().unwrap();
    let pending = running.flush_frame_if_needed(seconds(0.5)).expect("something changed");
    assert_eq!(pending.frame.log_lines.len(), 1);
    // The frame was not written: the state is in the next one, the line is gone.
    let frame = flush(&mut logger, 1.0).expect("the state is still to be written");
    assert_eq!(frame.state.as_deref(), Some("one"));
    assert!(frame.log_lines.is_empty());
}

fn shown(state: &ReplayFrameState) -> String {
    let stats = &state.stats;
    let mut text = format!("{}|{}|{}", stats.state, stats.window_name, stats.exit_hint);
    for i in 0..stats.key_values.len() {
        text += &format!("|{}={}", stats.key_values.key_at(i), stats.key_values.value_at(i));
    }
    for i in 0..stats.worker_progress.len() {
        let gauge = stats.worker_progress.value_at(i);
        text += &format!(
            "|{}:{}:{}",
            stats.worker_progress.key_at(i),
            f32::from_bits(gauge.progress.bits),
            gauge.label
        );
    }
    text + &format!("|{}|{}", stats.master_progress.label, state.log_lines.len())
}

#[test]
fn a_reader_shows_what_the_logger_holds() {
    let mut logger = Some(ProgressTuiLogger::new());
    let mut replay = ReplayFrameState::default();
    assert_eq!(replay.stats.exit_hint, "Reader active. Ctrl+C to exit.");
    for round in 0..60_usize {
        log_key_value_pair(&mut logger, format!("k{}", round % 7), format!("{round}"));
        log_worker_progress(
            &mut logger,
            format!("w{}", round % 5),
            float(round as f32 / 60.0),
            format!("{round}"),
        );
        if round % 4 == 0 {
            delete_worker_progress_bar(&mut logger, format!("w{}", (round + 2) % 5));
        }
        log_info(&mut logger, format!("line {round}"));
        log_info(&mut logger, format!("more {round}"));
        if round == 30 {
            log_exit_hint(&mut logger, s("hint"));
        }
        let frame = flush(&mut logger, round as f64).expect("something changed");
        replay.apply_frame(&frame);
        let held = &logger.as_ref().unwrap().snapshot;
        assert_eq!(replay.stats.state, held.state);
        assert_eq!(replay.stats.worker_progress.len(), held.worker_progress.len());
        for i in 0..held.worker_progress.len() {
            assert_eq!(replay.stats.worker_progress.key_at(i), held.worker_progress.key_at(i));
            assert_eq!(
                replay.stats.worker_progress.value_at(i).label,
                held.worker_progress.value_at(i).label
            );
        }
        for i in 0..held.key_values.len() {
            assert_eq!(replay.stats.key_values.key_at(i), held.key_values.key_at(i));
            assert_eq!(replay.stats.key_values.value_at(i), held.key_values.value_at(i));
        }
        if round >= 30 {
            assert_eq!(replay.stats.exit_hint, "hint");
        }
    }
    // Of a hundred and twenty lines the last hundred are kept.
    assert_eq!(replay.log_lines.len(), 100);
    assert_eq!(replay.log_lines.line(0).message, "line 10");
    assert_eq!(replay.log_lines.line(99).message, "more 59");
}

fn frames(n: usize) -> Vec<Option<ProgressLogFrame>> {
    let mut logger = Some(ProgressTuiLogger::new());
    (0..n)
        .map(|i| {
            log_state(&mut logger, format!("state {i}"));
            log_key_value_pair(&mut logger, format!("k{}", i % 9), format!("{i}"));
            log_message(
                &mut logger,
                TuiMessage::Line { message: format!("l{i}"), severity: Severity::Info },
            );
            flush(&mut logger, i as f64)
        })
        .collect()
}

fn replayed(frames: &[Option<ProgressLogFrame>]) -> ReplayFrameState {
    let mut state = ReplayFrameState::default();
    for frame in frames {
        state.apply_frame(frame.as_ref().unwrap());
    }
    state
}

fn actions(toggle_pause: bool, speed_delta_steps: i32) -> InputActions {
    InputActions { quit: false, toggle_pause, speed_delta_steps, refresh_file: false }
}

#[test]
fn the_state_at_a_frame_does_not_depend_on_the_cache() {
    let log = frames(130);
    let mut engine = ReplayEngine::open(log.len());
    engine.apply_actions(actions(false, 12));
    assert_eq!(engine.playback_status().speed_frames_per_half_second, 13);
    let mut seen: Vec<usize> = Vec::new();
    for step in 0..40 {
        let current = engine.playback_status().current_frame;
        seen.push(current);
        let state = engine.current_frame_state(&log).expect("the log has frames");
        assert_eq!(shown(&state), shown(&replayed(&log[..current + 1])));
        assert_eq!(state.elapsed_seconds, seconds(current as f64));
        if step == 6 {
            engine.apply_actions(actions(false, -33));
        }
        if step == 20 {
            engine.apply_actions(actions(false, 30));
        }
        engine.advance_over(1, log.len()).unwrap();
    }
    assert!(seen.contains(&0));
    assert!(seen.contains(&129));
    assert!(seen.windows(2).any(|w| w[1] < w[0]));
}

#[test]
fn a_missing_frame_ends_the_log_before_it() {
    let mut log = frames(30);
    log[25] = None;
    let mut engine = ReplayEngine::open(log.len());
    engine.apply_actions(actions(false, 27));
    engine.advance_over(1, log.len()).unwrap();
    assert_eq!(engine.playback_status().current_frame, 28);
    let state = engine.current_frame_state(&log).expect("frames before the missing one");
    assert_eq!(shown(&state), shown(&replayed(&log[..25])));
    assert_eq!(engine.playback_status().frame_count, 25);
    assert_eq!(engine.playback_status().current_frame, 24);

    log[0] = None;
    let mut engine = ReplayEngine::open(log.len());
    assert!(engine.current_frame_state(&log).is_none());
    assert_eq!(engine.playback_status().frame_count, 0);

    let mut engine = ReplayEngine::open(0);
    assert!(engine.current_frame_state(&Vec::new()).is_none());
}

#[test]
fn playback_stops_at_the_end_and_resumes_on_growth() {
    let mut engine = ReplayEngine::open(3);
    engine.apply_actions(actions(false, 1));
    engine.advance_over(1, 3).unwrap();
    assert_eq!(engine.playback_status().current_frame, 2);
    engine.advance_over(1, 3).unwrap();
    let status = engine.playback_status();
    assert_eq!(
        status,
        PlaybackStatus {
            frame_count: 3,
            current_frame: 2,
            speed_frames_per_half_second: 0,
            paused: true
        }
    );
    engine.advance_over(1, 10).unwrap();
    let status = engine.playback_status();
    assert_eq!(status.current_frame, 4);
    assert_eq!(status.speed_frames_per_half_second, 2);
    assert!(!status.paused);

    // A pause by the user is not undone by growth.
    engine.apply_actions(actions(true, 0));
    assert!(engine.playback_status().paused);
    engine.advance_over(1, 100).unwrap();
    assert_eq!(engine.playback_status().current_frame, 4);
    let result = engine.force_refresh(2);
    assert_eq!((result.previous_frame_count, result.current_frame_count), (10, 2));
    assert_eq!(engine.playback_status().current_frame, 1);
}

#[test]
fn playback_steps_and_faults() {
    let mut engine = ReplayEngine::open(5);
    let mut advance = Advance::start(usize::MAX);
    let fault = engine.advance(&mut advance).unwrap_err();
    assert_eq!(fault, "delta_frames exceeds i64 range");
    assert_eq!(advance.phase, AdvancePhase::Done);
    engine.apply_actions(actions(false, 9));
    let mut advance = Advance::start(i64::MAX as usize);
    assert_eq!(engine.advance(&mut advance).unwrap_err(), "frame delta overflow");
    engine.apply_actions(actions(false, -9));
    engine.advance_over(3, 5).unwrap();
    assert_eq!(engine.playback_status().current_frame, 3);
    let mut advance = Advance::start(i64::MAX as usize);
    assert_eq!(engine.advance(&mut advance).unwrap_err(), "target frame overflow");
    // Backwards, the playback stops at the first frame without a pause.
    engine.apply_actions(actions(false, -5));
    engine.advance_over(1, 5).unwrap();
    assert_eq!(engine.playback_status().current_frame, 0);
    assert!(!engine.playback_status().paused);
    assert!(engine.can_apply(actions(false, 1)));
    assert!(!engine.can_apply(actions(false, i32::MIN)));

    // On the last frame a step first asks for a reload.
    let mut engine = ReplayEngine::open(1);
    let mut advance = Advance::start(1);
    assert_eq!(engine.advance(&mut advance), Ok(true));
    engine.reload_frames(1);
    assert_eq!(engine.advance(&mut advance), Ok(true));
    engine.reload_frames(2);
    assert_eq!(engine.advance(&mut advance), Ok(false));
    assert_eq!(engine.playback_status().current_frame, 1);
}

fn replay_of(frames: Vec<Option<ProgressLogFrame>>) -> ReplayFrameState {
    let mut replay = ReplayFrameState::default();
    for frame in frames.into_iter().flatten() {
        replay.apply_frame(&frame);
    }
    replay
}

#[test]
fn the_last_value_of_a_key_is_shown() {
    for flush_between in [false, true] {
        let mut logger = Some(ProgressTuiLogger::new());
        let mut frames = Vec::new();
        log_key_value_pair(&mut logger, s("k"), s("a"));
        log_key_value_pair(&mut logger, s("kept"), s("value"));
        if flush_between {
            frames.push(flush(&mut logger, 0.5));
        }
        log_key_value_pair(&mut logger, s("k"), s("b"));
        let last = flush(&mut logger, 1.0).expect("something changed");
        assert_eq!(last.key_values.iter().filter(|(key, _)| key == "k").count(), 1);
        frames.push(Some(last));
        let stats = replay_of(frames).stats;
        assert_eq!(stats.key_values.len(), 2);
        assert_eq!((stats.key_values.key_at(0), stats.key_values.value_at(0)), (&s("k"), &s("b")));
        assert_eq!(
            (stats.key_values.key_at(1), stats.key_values.value_at(1)),
            (&s("kept"), &s("value"))
        );
    }
}

#[test]
fn a_deleted_worker_is_gone_and_the_others_stay() {
    let run = |deleted: Option<&str>, flush_between: bool| {
        let mut logger = Some(ProgressTuiLogger::new());
        let mut frames = Vec::new();
        log_key_value_pair(&mut logger, s("k"), s("v"));
        log_state(&mut logger, s("running"));
        log_master_progress(&mut logger, float(0.75), s("most"));
        log_worker_progress(&mut logger, s("w"), float(0.5), s("half"));
        log_worker_progress(&mut logger, s("w2"), float(0.25), s("quarter"));
        if flush_between {
            frames.push(flush(&mut logger, 0.5));
        }
        if let Some(name) = deleted {
            delete_worker_progress_bar(&mut logger, s(name));
        }
        frames.push(flush(&mut logger, 1.0));
        shown(&replay_of(frames))
    };
    let head = "running|Progress Screen|Reader active. Ctrl+C to exit.|k=v";
    for flush_between in [false, true] {
        assert_eq!(run(Some("w"), flush_between), format!("{head}|w2:0.25:quarter|most|0"));
        let all = format!("{head}|w:0.5:half|w2:0.25:quarter|most|0");
        assert_eq!(run(None, flush_between), all);
        assert_eq!(run(Some("never logged"), flush_between), all);
    }
}

#[test]
fn a_message_may_come_in_while_a_frame_is_written() {
    let mut logger = Some(ProgressTuiLogger::new());
    log_key_value_pair(&mut logger, s("k"), s("a"));
    let running = logger.as_mut().expect("the logger runs");
    let pending = running.flush_frame_if_needed(seconds(0.5)).expect("something changed");
    log_key_value_pair(&mut logger, s("k"), s("b"));
    log_info(&mut logger, s("line"));
    logger.as_mut().expect("the logger runs").frame_written(pending.snapshot);
    let last = flush(&mut logger, 1.0).expect("something changed");
    assert_eq!(last.key_values, vec![(s("k"), s("b"))]);
    let replay = replay_of(vec![Some(pending.frame), Some(last)]);
    assert_eq!(replay.stats.key_values.value_at(0), "b");
    assert_eq!(replay.log_lines.len(), 1);
}
