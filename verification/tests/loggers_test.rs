use research_utility::float_bits::Float32;
use research_utility::message::{Severity, TuiMessage};
use research_utility::progress_text_logger;
use research_utility::progress_text_logger::ProgressTextLogger;
use research_utility::progress_tui_protocol::{ProgressClientMessage, ProgressServerMessage};
use research_utility::progress_tui_server;
use research_utility::progress_tui_server::{
    handle_client, ClientEvent, ClientStep, ProgressTuiServer,
};

fn s(x: &str) -> String {
    x.to_string()
}

fn float(f: f32) -> Float32 {
    Float32 { bits: f.to_bits() }
}

fn summary(logged: progress_text_logger::Logged) -> Option<String> {
    match logged {
        progress_text_logger::Logged::Taken { summary } => summary,
        progress_text_logger::Logged::Print(_) => panic!("expected the logger to take it"),
    }
}

#[test]
fn the_summary_holds_info_and_errors() {
    let mut logger = Some(ProgressTextLogger::new());
    let info = progress_text_logger::log_info(&mut logger, s("a"));
    assert_eq!(summary(info).as_deref(), Some("a"));
    let error = progress_text_logger::log_error(&mut logger, "b");
    assert_eq!(summary(error).as_deref(), Some("[ERROR] b"));
    assert_eq!(summary(progress_text_logger::log_warning(&mut logger, "c")), None);
    assert_eq!(summary(progress_text_logger::log_verbose(&mut logger, s("d"))), None);
    assert_eq!(summary(progress_text_logger::log_state(&mut logger, s("e"))), None);
    let mut none: Option<ProgressTextLogger> = None;
    match progress_text_logger::log_warning(&mut none, "x") {
        progress_text_logger::Logged::Print(m) => {
            assert_eq!(m.to_string(""), "WARNING: [WARNING] x");
        }
        _ => panic!("expected the message to be printed"),
    }
}

#[test]
fn the_full_log_holds_everything() {
    let mut logger = Some(ProgressTextLogger::new());
    assert!(logger.as_mut().unwrap().flush_verbose_section().is_none());
    progress_text_logger::log_info(&mut logger, s("hello"));
    progress_text_logger::log_warning(&mut logger, "careful");
    progress_text_logger::log_verbose(&mut logger, s("detail"));
    progress_text_logger::log_state(&mut logger, s("busy"));
    progress_text_logger::log_window_name(&mut logger, s("win"));
    progress_text_logger::log_exit_hint(&mut logger, s("hint"));
    progress_text_logger::log_key_value_pair(&mut logger, s("k"), s("v"));
    progress_text_logger::log_worker_progress(&mut logger, s("w"), float(0.5), s("half"));
    progress_text_logger::log_worker_progress(&mut logger, s("x"), float(0.5), s("half"));
    progress_text_logger::delete_worker_progress_bar(&mut logger, s("x"));
    progress_text_logger::log_master_progress(&mut logger, float(0.25), s("some"));
    let running = logger.as_mut().unwrap();
    let section = running.flush_verbose_section().expect("something changed");
    let rule = "=".repeat(70);
    assert_eq!(
        section.text("2.0", &vec![s("50.0")], "25.0"),
        format!(
            "{rule}\nElapsed: 2.0s\n{rule}\nState: busy\nWindow: win\nExit Hint: hint\n\n\
             Key-Value Pairs:\n  k: v\n\nWorkers:\n  w: 50.0% - half\n\nMaster: 25.0% - some\n\n\
             Log Lines:\n  [INFO] hello\n  [WARN] [WARNING] careful\n  [VERBOSE] detail\n\n"
        )
    );
    assert!(section.snapshot_changed);
    running.section_written(section);
    assert!(running.flush_verbose_section().is_none());

    progress_text_logger::log_error(&mut logger, "bad");
    let running = logger.as_mut().unwrap();
    let section = running.flush_verbose_section().expect("there is a line");
    assert!(!section.snapshot_changed);
    let text = section.text("3.5", &vec![s("50.0")], "25.0");
    assert!(text.contains("Log Lines:\n  [ERROR] [ERROR] bad\n\n"));
    running.section_written(section);
    // A gauge at zero is not shown, and one of the other sign is no change.
    let mut fresh = Some(ProgressTextLogger::new());
    progress_text_logger::log_master_progress(&mut fresh, float(-0.0), s("0%"));
    assert!(fresh.as_mut().unwrap().flush_verbose_section().is_none());
    progress_text_logger::log_info(&mut fresh, s("x"));
    let section = fresh.as_mut().unwrap().flush_verbose_section().unwrap();
    assert_eq!(
        section.text("0.0", &vec![], "0.0"),
        format!("{rule}\nElapsed: 0.0s\n{rule}\n\nLog Lines:\n  [INFO] x\n\n")
    );
}

#[test]
fn the_server_keeps_and_forwards() {
    let mut none: Option<ProgressTuiServer> = None;
    match progress_tui_server::log_info(&mut none, s("x")) {
        progress_tui_server::Logged::Print(m) => assert_eq!(m.to_string(""), "INFO: x"),
        _ => panic!("expected the message to be printed"),
    }
    let mut server = Some(ProgressTuiServer::new());
    match progress_tui_server::log_error(&mut server, s("x")) {
        progress_tui_server::Logged::Broadcast { file_line, message } => {
            assert_eq!(file_line.as_deref(), Some("x"));
            assert_eq!(message.to_string(""), "ERROR: x");
        }
        _ => panic!("expected the message to be sent"),
    }
    match progress_tui_server::log_key_value_pair(&mut server, s("k"), s("v")) {
        progress_tui_server::Logged::Broadcast { file_line, .. } => assert_eq!(file_line, None),
        _ => panic!("expected the message to be sent"),
    }
    let stats = &server.as_ref().unwrap().stats;
    match handle_client(stats, ClientEvent::Received(ProgressClientMessage::SnapshotRequest)) {
        ClientStep::Send(ProgressServerMessage::Snapshot(copy)) => {
            assert_eq!(copy.key_values.get("k").unwrap(), "v");
        }
        _ => panic!("expected a snapshot"),
    }
    let command = ProgressClientMessage::SubmitCommand { command: s("go") };
    match handle_client(stats, ClientEvent::Received(command)) {
        ClientStep::RunCommand(command) => assert_eq!(command, "go"),
        _ => panic!("expected a command"),
    }
    let update = TuiMessage::Line { message: s("u"), severity: Severity::Info };
    assert!(matches!(
        handle_client(stats, ClientEvent::Update(update)),
        ClientStep::Send(ProgressServerMessage::Update(TuiMessage::Line { .. }))
    ));
    assert!(matches!(handle_client(stats, ClientEvent::Lagged), ClientStep::Nothing));
    assert!(matches!(handle_client(stats, ClientEvent::Closed), ClientStep::Close));
    assert!(matches!(handle_client(stats, ClientEvent::UpdatesClosed), ClientStep::Close));
}
