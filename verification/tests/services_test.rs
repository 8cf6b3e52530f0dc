use research_utility::asset_file::{
    cannot_open_text, cannot_read_text, encode_digest, hash_bytes, Base64Hash,
};
use research_utility::launch_python_process::{
    begin_listening, cleanup_socket_path, holds_message, run_wrapper_tui_listener,
    socket_path_to_arg, take_line, wrapper_tui_socket_name, LaunchFault, LineOutcome,
    ListenerEvent, ListenerPhase, ListenerStep, PythonProcessLauncher, Removal, RUNNER,
};
use research_utility::message::{Severity, TuiMessage};
use research_utility::progress_preview::{
    phase, running_label, status_text, tick_line, tick_severity, tick_text, total_ticks,
    worker_name, worker_steps,
};
use research_utility::progress_tui_logger::{log_message, log_warning, ProgressTuiLogger};
use research_utility::float_bits::Float64;
use research_utility::pushover_notify::{
    missing_assignments, parse_dotenv, push_notification, push_notification_with, read_reply,
    DotenvLoad, JsonValue, PushoverError, PushoverOptions,
};

fn s(x: &str) -> String {
    x.to_string()
}

#[test]
fn hashes_of_known_contents() {
    // The digest of nothing, as the definition of BLAKE3 gives it.
    assert_eq!(hash_bytes(&vec![]).as_text(), "rxNJufX5oaagQE3qNtzJSZvLJcmtwRK3zJqTyuQfMmI=");
    let digest: Vec<u8> = (0..32).collect();
    assert_eq!(
        encode_digest(&digest).as_text(),
        "AAECAwQFBgcICQoLDA0ODxAREhMUFRYXGBkaGxwdHh8="
    );
    let mut other = digest.clone();
    other[31] = 32;
    assert!(!encode_digest(&digest).equals(&encode_digest(&other)));
    let again = Base64Hash::from_text(encode_digest(&digest).as_text().to_string());
    assert!(again.equals(&encode_digest(&digest)));
    assert_eq!(encode_digest(&vec![0xff; 32]).as_text(), format!("{}8=", "/".repeat(42)));
    assert!(!hash_bytes(&vec![0]).equals(&hash_bytes(&vec![])));
    assert_eq!(cannot_open_text("/x", "e"), "Cannot open file /x: e");
    assert_eq!(cannot_read_text("/x", "e"), "Failed to read file /x: e");
}

#[test]
fn assignments_of_a_dotenv_file() {
    let file = "# comment\n\n  A = 1 \r\nB=\"two\"\nC='three'\n  =none\nno sign\nD=\"'x'\"\n\
                E=a=b\nA=again\n#F=1\nG=";
    let pairs = parse_dotenv(file);
    let expected: Vec<(String, String)> = [
        ("A", "1"),
        ("B", "two"),
        ("C", "three"),
        ("D", "x"),
        ("E", "a=b"),
        ("A", "again"),
        ("G", ""),
    ]
    .iter()
    .map(|(k, v)| (s(k), s(v)))
    .collect();
    assert_eq!(pairs, expected);
    let is_set = vec![false, true, false, false, false, false, false];
    let made = missing_assignments(&pairs, &is_set);
    let names: Vec<&str> = made.iter().map(|(k, _)| k.as_str()).collect();
    assert_eq!(names, vec!["A", "C", "D", "E", "G"]);
    assert_eq!(made[0].1, "1");
}

#[test]
fn bodies_of_requests() {
    assert_eq!(
        push_notification("héllo w+rld & co_*-.~", "t", "u", "/.env").unwrap(),
        "token=t&user=u&message=h%C3%A9llo+w%2Brld+%26+co_*-.%7E"
    );
    let options = PushoverOptions {
        title: "T",
        priority: -1,
        device: "",
        sound: "s",
        url: "http://x",
        url_title: "",
    };
    assert_eq!(
        push_notification_with("m", &options, "t", "u", "/.env").unwrap(),
        "token=t&user=u&message=m&title=T&sound=s&url=http%3A%2F%2Fx&priority=-1"
    );
    assert_eq!(
        push_notification("m", "", "", "/.env").unwrap_err().text(),
        "PUSHOVER_TOKEN not set. Add it to /.env or set the environment variable."
    );
    assert_eq!(
        push_notification("m", "t", "", "/.env").unwrap_err().text(),
        "PUSHOVER_USER not set. Add it to /.env or set the environment variable."
    );
    assert_eq!(PushoverError::Http(s("e")).text(), "Pushover HTTP error: e");
}

#[test]
fn replies_of_the_service() {
    let taken = JsonValue::Object(vec![
        (s("status"), JsonValue::Integer(1)),
        (s("request"), JsonValue::Text(s("id"))),
    ]);
    assert_eq!(read_reply(&taken).unwrap(), "id");
    let nameless = JsonValue::Object(vec![(s("status"), JsonValue::Integer(1))]);
    assert_eq!(read_reply(&nameless).unwrap(), "");
    let refused = JsonValue::Object(vec![
        (s("status"), JsonValue::Integer(0)),
        (
            s("errors"),
            JsonValue::Array(vec![
                JsonValue::Text(s("a \"b\"")),
                JsonValue::Integer(3),
                JsonValue::Text(s("c")),
            ]),
        ),
    ]);
    assert_eq!(
        read_reply(&refused).unwrap_err().text(),
        "Pushover API error: [\"a \\\"b\\\"\", \"c\"]"
    );
    assert_eq!(read_reply(&JsonValue::Other).unwrap_err().text(), "Pushover API error: []");
}

#[test]
fn command_lines_of_wrappers() {
    assert_eq!(RUNNER, "uv");
    let launcher = PythonProcessLauncher::new("training", "pkg.train")
        .with_arg("--a", s("1"))
        .with_arg("--b", s("two words"))
        .with_process_group(true)
        .with_stdin_json(Ok(b"{}".to_vec()))
        .unwrap();
    assert_eq!(
        launcher.command_args("/tmp/x.sock"),
        vec![
            "run",
            "python",
            "-m",
            "pkg.train",
            "--orchestrator-socket-path",
            "/tmp/x.sock",
            "--a",
            "1",
            "--b",
            "two words",
        ]
    );
    assert_eq!(launcher.stdin_json.as_deref(), Some(b"{}".as_slice()));
    assert!(launcher.process_group);
    assert_eq!(
        PythonProcessLauncher::new("k", "m").with_stdin_json(Err(s("e"))).unwrap_err().text(),
        "failed to serialize k stdin payload as JSON: e"
    );
}

#[test]
fn sockets_of_wrappers() {
    assert_eq!(
        wrapper_tui_socket_name("test", 42, 7),
        "credit_assignment_test_wrapper_42_7.sock"
    );
    assert_ne!(wrapper_tui_socket_name("test", 4, 27), wrapper_tui_socket_name("test", 42, 7));
    assert_eq!(socket_path_to_arg(Some(s("/a")), "/a").unwrap(), "/a");
    assert_eq!(
        socket_path_to_arg(None, "/?").unwrap_err().text(),
        "socket path is not valid UTF-8: /?"
    );
    assert!(cleanup_socket_path("/a", Removal::Removed).is_none());
    assert!(cleanup_socket_path("/a", Removal::NotFound).is_none());
    assert_eq!(
        cleanup_socket_path("/a", Removal::Failed(s("e"))).unwrap().text(),
        "failed to remove Unix socket path /a: e"
    );
}

#[test]
fn listeners_end_as_ordered() {
    assert!(matches!(begin_listening(true), ListenerStep::End(Ok(()))));
    assert!(matches!(begin_listening(false), ListenerStep::Accept));
    let run = |phase, event| run_wrapper_tui_listener("w", "/a", phase, event);
    let accepting = ListenerPhase::Accepting;
    let reading = ListenerPhase::Reading;
    assert!(matches!(run(accepting, ListenerEvent::Stop), ListenerStep::End(Ok(()))));
    assert!(matches!(run(accepting, ListenerEvent::Connected), ListenerStep::Read));
    match run(accepting, ListenerEvent::AcceptFailed(s("e"))) {
        ListenerStep::End(Err(fault)) => assert_eq!(
            fault.text(),
            "failed while accepting w Unix socket connection at /a: e"
        ),
        _ => panic!("expected a fault"),
    }
    assert!(matches!(run(reading, ListenerEvent::Stop), ListenerStep::StopReader));
    assert!(matches!(
        run(reading, ListenerEvent::ReaderEnded(Ok(()))),
        ListenerStep::End(Ok(()))
    ));
    match run(reading, ListenerEvent::ReaderFailed(s("e"))) {
        ListenerStep::End(Err(fault)) => {
            assert_eq!(fault.text(), "w TUI socket reader task join failure: e");
        }
        _ => panic!("expected a fault"),
    }
    assert!(matches!(run(reading, ListenerEvent::Connected), ListenerStep::Wait));
}

#[test]
fn faults_of_wrappers_in_words() {
    let texts = vec![
        LaunchFault::Wait { error: s("e") }.text(),
        LaunchFault::Launch { kind: s("k"), error: s("e") }.text(),
        LaunchFault::Bind { kind: s("k"), path: s("/a"), error: s("e") }.text(),
        LaunchFault::StdinUnavailable { kind: s("k") }.text(),
        LaunchFault::WriteStdin { kind: s("k"), error: s("e") }.text(),
        LaunchFault::CloseStdin { kind: s("k"), error: s("e") }.text(),
        LaunchFault::Listener { kind: s("k"), error: s("e") }.text(),
        LaunchFault::ReadStream { kind: s("k"), error: s("e") }.text(),
    ];
    assert_eq!(
        texts,
        vec![
            "failed while waiting for child process: e",
            "failed to launch k wrapper process: e",
            "failed to bind Unix socket for k wrapper TUI listener at /a: e",
            "k stdin is unavailable; expected a piped stdin handle",
            "failed to write JSON stdin payload to k: e",
            "failed to close k stdin after writing JSON payload: e",
            "k TUI socket listener ended with error: e",
            "failed while reading k TUI socket stream: e",
        ]
    );
}

/// Reads a message in the way in which wrappers write them.
fn read_message(line: &str) -> Result<TuiMessage, String> {
    let value: serde_json::Value = serde_json::from_str(line).map_err(|e| e.to_string())?;
    let text = |v: &serde_json::Value, name: &str| v[name].as_str().unwrap().to_string();
    if let Some(body) = value.get("State") {
        Ok(TuiMessage::State { state: text(body, "state") })
    } else if let Some(body) = value.get("KeyValuePair") {
        Ok(TuiMessage::KeyValuePair { key: text(body, "key"), value: text(body, "value") })
    } else if let Some(body) = value.get("Line") {
        assert_eq!(text(body, "severity"), "Error");
        Ok(TuiMessage::Line { message: text(body, "message"), severity: Severity::Error })
    } else {
        Err(s("unknown variant"))
    }
}

#[test]
fn messages_of_wrappers_reach_the_log() {
    let mut logger = Some(ProgressTuiLogger::new());
    let lines = [
        "{\"State\":{\"state\":\"Training wrapper started\"}}",
        "   ",
        "{\"KeyValuePair\":{\"key\":\"checkpoint_dir\",\"value\":\"/tmp/checkpoints\"}}",
        "{\"Line\":{\"message\":\"Training failed: torchrun exited with code 1\",\"severity\":\"Error\"}}",
        "{\"Other\":1}",
    ];
    for line in lines {
        if !holds_message(line) {
            continue;
        }
        match take_line("test wrapper", line, read_message(line)) {
            LineOutcome::Log(message) => assert!(log_message(&mut logger, message).is_none()),
            LineOutcome::Warn(fault) => {
                assert!(log_warning(&mut logger, fault.text()).is_none());
            }
        }
    }
    let elapsed = Float64 { bits: 0.25_f64.to_bits() };
    let frame = logger.unwrap().flush_frame_if_needed(elapsed).expect("messages came").frame;
    assert_eq!(frame.state.as_deref(), Some("Training wrapper started"));
    assert_eq!(frame.key_values, vec![(s("checkpoint_dir"), s("/tmp/checkpoints"))]);
    assert_eq!(frame.log_lines.len(), 2);
    assert_eq!(frame.log_lines[0].message, "Training failed: torchrun exited with code 1");
    assert_eq!(frame.log_lines[0].severity, Severity::Error);
    assert_eq!(
        frame.log_lines[1].message,
        "failed to parse test wrapper TUI socket message as TuiMessage: unknown variant \
         (payload={\"Other\":1})"
    );
    assert_eq!(frame.log_lines[1].severity, Severity::Warning);
}

#[test]
fn a_made_up_run() {
    let total = total_ticks(6, 40);
    assert_eq!(total, 64);
    assert_eq!(phase(0, total), "indexing");
    assert_eq!(phase(20, total), "indexing");
    assert_eq!(phase(21, total), "processing");
    assert_eq!(phase(41, total), "processing");
    assert_eq!(phase(42, total), "finalizing");
    assert_eq!(worker_steps(3, 1, 40), 0);
    assert_eq!(worker_steps(9, 1, 40), 5);
    for worker in 0..6 {
        assert_eq!(worker_steps(total, worker, 40), 40);
    }
    assert!(tick_severity(0) == Severity::Error);
    assert!(tick_severity(14) == Severity::Warning);
    assert!(tick_severity(15) == Severity::Info);
    assert_eq!(worker_name(0), "endpoint-1");
    for percent in [0_u64, 9, 10, 99, 100, 1234] {
        assert_eq!(running_label(percent, "p"), format!("{percent:>3}% (p)"));
    }
    assert_eq!(status_text(false, 2, 6), "running (2/6 endpoints done)");
    assert_eq!(status_text(true, 6, 6), "completed (6/6 endpoints done)");
    assert_eq!(tick_text(3, 64), "3/64");
    assert_eq!(
        tick_line(3, "indexing", "12", 0, 6),
        "tick=3 phase=indexing master=12% workers_done=0/6"
    );
}

#[test]
fn only_the_first_load_of_a_dotenv_file_counts() {
    let mut env = vec![(s("EMPTY"), s("")), (s("A"), s("kept"))];
    let mut load = DotenvLoad { done: false };
    let files = ["A=1\nEMPTY=2\nNEW=3\nNEW=4", "LATER=5\nA=6"];
    for file in files {
        let pairs = load.load_dotenv(Some(file));
        let is_set =
            pairs.iter().map(|(key, _)| env.iter().any(|(name, _)| name == key)).collect();
        env.extend(missing_assignments(&pairs, &is_set));
        assert!(load.done);
        assert_eq!(
            env,
            vec![(s("EMPTY"), s("")), (s("A"), s("kept")), (s("NEW"), s("3"))]
        );
    }
    let mut load = DotenvLoad { done: false };
    assert!(load.load_dotenv(None).is_empty());
    assert!(load.done);
    assert!(load.load_dotenv(Some("A=1")).is_empty());
}
