use research_utility::float_bits::Float32;
use research_utility::log_message;
use research_utility::message::{MyLogMessage, Severity, TuiMessage};
use research_utility::my_log_message_tx;
use research_utility::my_log_message_tx::LogOutlet;
use research_utility::progress_tui_protocol::{
    check_wire_size, progress_screen_server_addr, wire_error, ProgressStats, WireStep,
    DEFAULT_PROGRESS_SCREEN_TCP_ADDR, MAX_WIRE_MESSAGE_BYTES, PROGRESS_SCREEN_TCP_ADDR_ENV,
};

fn float(f: f32) -> Float32 {
    Float32 { bits: f.to_bits() }
}

#[test]
fn float_tests_agree_with_hardware() {
    let values = [
        0.0_f32,
        -0.0,
        1.0,
        -1.0,
        0.5,
        1.0000001,
        0.99999994,
        f32::MIN_POSITIVE,
        1.0e-45,
        -1.0e-45,
        f32::MAX,
        f32::MIN,
        f32::INFINITY,
        f32::NEG_INFINITY,
        f32::NAN,
        -f32::NAN,
        f32::from_bits(0x7f80_0001),
    ];
    for a in values {
        assert_eq!(float(a).is_in_unit_range(), (0.0..=1.0).contains(&a), "{a}");
        assert_eq!(float(a).is_positive(), a > 0.0, "{a}");
        for b in values {
            assert_eq!(float(a).equals(float(b)), a == b, "{a} {b}");
        }
    }
    let mut bits: u64 = 0;
    while bits <= u32::MAX as u64 {
        let a = f32::from_bits(bits as u32);
        assert_eq!(float(a).is_in_unit_range(), (0.0..=1.0).contains(&a));
        bits += 65_521;
    }
}

fn line(severity: Severity) -> TuiMessage {
    TuiMessage::Line { message: "m".to_string(), severity }
}

#[test]
fn messages_as_lines() {
    let s = |x: &str| x.to_string();
    assert_eq!(line(Severity::Info).to_string(""), "INFO: m");
    assert_eq!(line(Severity::Warning).to_string(""), "WARNING: m");
    assert_eq!(line(Severity::Error).to_string(""), "ERROR: m");
    assert_eq!(line(Severity::Verbose).to_string(""), "VERBOSE: m");
    assert_eq!(TuiMessage::State { state: s("up") }.to_string(""), "STATE: up");
    assert_eq!(
        TuiMessage::WindowName { window_name: s("w") }.to_string(""),
        "WINDOW NAME: w"
    );
    assert_eq!(
        TuiMessage::KeyValuePair { key: s("k"), value: s("v") }.to_string(""),
        "k: v"
    );
    let progress = 0.25_f32;
    let text = format!("{progress:.2}");
    let worker = TuiMessage::WorkerProgress {
        worker_name: s("w1"),
        progress: float(progress),
        label: s("half"),
    };
    assert_eq!(worker.to_string(&text), "Worker w1 Progress - half: 0.25%");
    let master = TuiMessage::MasterProgress { progress: float(progress), label: s("l") };
    assert_eq!(master.to_string(&text), "Master Progress - l: 0.25%");
    assert_eq!(
        TuiMessage::DeleteWorkerBar { worker_name: s("w") }.to_string(""),
        "Delete progress bar for worker w"
    );
    assert_eq!(TuiMessage::ExitHint(s("bye")).to_string(""), "EXIT HINT: bye");
    assert!(worker.is_in_range());
    let beyond = TuiMessage::MasterProgress { progress: float(1.5), label: s("l") };
    assert!(!beyond.is_in_range());

    let mine = MyLogMessage::WorkerProgress {
        worker_name: s("w1"),
        progress: float(1.5),
        label: s("x"),
    };
    assert_eq!(mine.to_string("1.50"), "Worker w1 Progress - x: 1.50%");
    assert!(!mine.is_in_range());
    assert_eq!(
        MyLogMessage::KeyValuePair { key: s("k"), value: s("v") }.to_string(""),
        "k: v"
    );
}

#[test]
fn stats_follow_messages() {
    let s = |x: &str| x.to_string();
    let mut stats = ProgressStats::default();
    assert_eq!(stats.window_name, "Progress Screen");
    assert_eq!(stats.exit_hint, "Server disconnected. Ctrl+C to exit.");
    assert_eq!(stats.master_progress.label, "0%");
    stats.apply_message(&line(Severity::Error));
    stats.apply_message(&TuiMessage::State { state: s("running") });
    stats.apply_message(&TuiMessage::KeyValuePair { key: s("k"), value: s("1") });
    stats.apply_message(&TuiMessage::KeyValuePair { key: s("k"), value: s("2") });
    stats.apply_message(&TuiMessage::WorkerProgress {
        worker_name: s("w"),
        progress: float(0.5),
        label: s("half"),
    });
    assert_eq!(stats.state, "running");
    assert_eq!(stats.key_values.len(), 1);
    assert_eq!(stats.key_values.get("k").unwrap(), "2");
    assert_eq!(stats.worker_progress.get("w").unwrap().label, "half");
    stats.apply_message(&TuiMessage::DeleteWorkerBar { worker_name: s("w") });
    assert_eq!(stats.worker_progress.len(), 0);
    stats.apply_message(&TuiMessage::ExitHint(s("h")));
    assert_eq!(stats.exit_hint, "h");
}

#[test]
fn wire_rules() {
    assert_eq!(PROGRESS_SCREEN_TCP_ADDR_ENV, "RESEARCH_UTILITY_PROGRESS_TUI_ADDR");
    assert_eq!(progress_screen_server_addr(None), DEFAULT_PROGRESS_SCREEN_TCP_ADDR);
    assert_eq!(progress_screen_server_addr(Some("h:1".to_string())), "h:1");
    assert_eq!(MAX_WIRE_MESSAGE_BYTES, 16 * 1024 * 1024);
    assert!(check_wire_size(MAX_WIRE_MESSAGE_BYTES).is_ok());
    assert_eq!(
        check_wire_size(MAX_WIRE_MESSAGE_BYTES + 1).unwrap_err(),
        "wire message too large: 16777217 bytes"
    );
    assert_eq!(wire_error(WireStep::Encode, "x"), "encode error: x");
    assert_eq!(wire_error(WireStep::Write, "x"), "write error: x");
    assert_eq!(wire_error(WireStep::Read, "x"), "read error: x");
    assert_eq!(wire_error(WireStep::Decode, "x"), "decode error: x");
}

#[test]
fn messages_find_their_way() {
    let to_screen = log_message::log_info(true, "a".to_string());
    assert!(matches!(
        to_screen,
        log_message::Route::Screen(MyLogMessage::Line { severity: Severity::Info, .. })
    ));
    let printed = log_message::log_error(false, "b".to_string());
    match printed {
        log_message::Route::Print(m) => assert_eq!(m.to_string(""), "ERROR: b"),
        _ => panic!("expected the message to be printed"),
    }

    let mut outlet = LogOutlet::new();
    assert!(matches!(
        my_log_message_tx::log_warning(outlet, "c".to_string()),
        my_log_message_tx::Route::Drop
    ));
    outlet.fall_back_to_stdout = true;
    match my_log_message_tx::log_key_value_pair(outlet, "k".to_string(), "v".to_string()) {
        my_log_message_tx::Route::Print(m) => assert_eq!(m.to_string(""), "k: v"),
        _ => panic!("expected the message to be printed"),
    }
    my_log_message_tx::set_my_log_message_tx(&mut outlet);
    assert!(matches!(
        my_log_message_tx::log_master_progress(outlet, float(0.5), "l".to_string()),
        my_log_message_tx::Route::Listener(MyLogMessage::MasterProgress { .. })
    ));
    my_log_message_tx::clear_my_log_message_tx(&mut outlet);
    assert!(!outlet.has_listener);
    assert!(outlet.fall_back_to_stdout);
}
