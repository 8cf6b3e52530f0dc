//! Python wrapper processes: how they are launched, and what they say over their socket.

use crate::decimal;
use crate::message::TuiMessage;
use crate::text;
use vstd::prelude::*;

verus! {

/// The program that runs a wrapper.
pub const RUNNER: &'static str = "uv";

/// A Python wrapper process that is to be launched: with command line arguments, an optional
/// payload on its standard input, and a socket over which it sends messages.
#[derive(Debug)]
pub struct PythonProcessLauncher {
    pub kind: &'static str,
    pub module: &'static str,
    pub args: Vec<(&'static str, String)>,
    pub stdin_json: Option<Vec<u8>>,
    pub process_group: bool,
}

/// The contents of a list of arguments.
pub open spec fn arg_views(args: Seq<(&'static str, String)>) -> Seq<(Seq<char>, Seq<char>)> {
    args.map_values(|a: (&'static str, String)| (a.0@, a.1@))
}

/// The arguments as they stand on the command line: each name before its value.
pub open spec fn flattened(args: Seq<(Seq<char>, Seq<char>)>) -> Seq<Seq<char>>
    decreases args.len(),
{
    if args.len() == 0 {
        Seq::empty()
    } else {
        flattened(args.drop_last()) + seq![args.last().0, args.last().1]
    }
}

impl PythonProcessLauncher {
    pub open spec fn arguments(self) -> Seq<(Seq<char>, Seq<char>)> {
        arg_views(self.args@)
    }

    pub fn new(kind: &'static str, module: &'static str) -> (r: PythonProcessLauncher)
        ensures
            r.kind == kind,
            r.module == module,
            r.arguments() == Seq::<(Seq<char>, Seq<char>)>::empty(),
            r.stdin_json is None,
            !r.process_group,
    {
        let r = PythonProcessLauncher {
            kind,
            module,
            args: Vec::new(),
            stdin_json: None,
            process_group: false,
        };
        assert(r.arguments() =~= Seq::<(Seq<char>, Seq<char>)>::empty());
        r
    }

    /// Adds an argument behind those before it.
    pub fn with_arg(self, key: &'static str, value: String) -> (r: PythonProcessLauncher)
        ensures
            r.arguments() == self.arguments().push((key@, value@)),
            r.kind == self.kind,
            r.module == self.module,
            r.stdin_json == self.stdin_json,
            r.process_group == self.process_group,
    {
        let mut args = self.args;
        args.push((key, value));
        let r = PythonProcessLauncher { args, ..self };
        assert(r.arguments() =~= self.arguments().push((key@, value@)));
        r
    }

    /// Takes what serializing a payload as JSON gave. The process gets the payload on its
    /// standard input once it has started.
    pub fn with_stdin_json(self, serialized: Result<Vec<u8>, String>) -> (r: Result<
        PythonProcessLauncher,
        LaunchFault,
    >)
        ensures
            match serialized {
                Ok(bytes) => {
                    &&& r is Ok
                    &&& r->Ok_0.stdin_json == Some(bytes)
                    &&& r->Ok_0.arguments() == self.arguments()
                    &&& r->Ok_0.kind == self.kind
                    &&& r->Ok_0.module == self.module
                    &&& r->Ok_0.process_group == self.process_group
                },
                Err(error) => {
                    &&& r is Err
                    &&& r->Err_0 is SerializeStdin
                    &&& r->Err_0->SerializeStdin_kind@ == self.kind@
                    &&& r->Err_0->SerializeStdin_error == error
                },
            },
    {
        match serialized {
            Ok(bytes) => Ok(PythonProcessLauncher { stdin_json: Some(bytes), ..self }),
            Err(error) => Err(
                LaunchFault::SerializeStdin { kind: self.kind.to_owned(), error },
            ),
        }
    }

    /// Puts the process in a process group of its own, so that signals reach all that it starts.
    pub fn with_process_group(self, enabled: bool) -> (r: PythonProcessLauncher)
        ensures
            r.process_group == enabled,
            r.arguments() == self.arguments(),
            r.kind == self.kind,
            r.module == self.module,
            r.stdin_json == self.stdin_json,
    {
        PythonProcessLauncher { process_group: enabled, ..self }
    }

    /// The command line behind the runner: the module, the socket, and the arguments.
    pub open spec fn command_line(self, socket_path: Seq<char>) -> Seq<Seq<char>> {
        seq![
            "run"@,
            "python"@,
            "-m"@,
            self.module@,
            "--orchestrator-socket-path"@,
            socket_path,
        ] + flattened(self.arguments())
    }

    pub fn command_args(&self, socket_path: &str) -> (out: Vec<String>)
        ensures
            text::texts(out@) == self.command_line(socket_path@),
    {
        let mut out: Vec<String> = Vec::new();
        out.push("run".to_owned());
        out.push("python".to_owned());
        out.push("-m".to_owned());
        out.push(self.module.to_owned());
        out.push("--orchestrator-socket-path".to_owned());
        out.push(socket_path.to_owned());
        let ghost head = text::texts(out@);
        assert(head =~= seq![
            "run"@,
            "python"@,
            "-m"@,
            self.module@,
            "--orchestrator-socket-path"@,
            socket_path@,
        ]);
        let ghost views = self.arguments();
        let mut i: usize = 0;
        assert(head + flattened(views.take(0)) =~= head);
        while i < self.args.len()
            invariant
                views == self.arguments(),
                i <= views.len(),
                text::texts(out@) == head + flattened(views.take(i as int)),
            decreases views.len() - i,
        {
            let ghost before = out@;
            out.push(self.args[i].0.to_owned());
            out.push(self.args[i].1.clone());
            proof {
                let (key, value) = views[i as int];
                assert(text::texts(out@) =~= text::texts(before) + seq![key, value]);
                assert(views.take(i + 1).drop_last() =~= views.take(i as int));
                assert(views.take(i + 1).last() == views[i as int]);
                assert(head + flattened(views.take(i + 1)) =~= (head + flattened(
                    views.take(i as int),
                )) + seq![key, value]);
            }
            i = i + 1;
        }
        assert(views.take(views.len() as int) =~= views);
        out
    }
}

// ---------------------------------------------------------------------------
// The socket
// ---------------------------------------------------------------------------

/// The file name of a wrapper's socket.
pub open spec fn socket_name(kind: Seq<char>, process_id: nat, number: nat) -> Seq<char> {
    "credit_assignment_"@ + kind + "_wrapper_"@ + decimal::decimal(process_id) + "_"@
        + decimal::decimal(number) + ".sock"@
}

/// The file name of a wrapper's socket, from the identifier of this process and the number of the
/// socket in it.
pub fn wrapper_tui_socket_name(wrapper_kind: &str, process_id: u32, number: u64) -> (s: String)
    ensures
        s@ == socket_name(wrapper_kind@, process_id as nat, number as nat),
{
    text::join7(
        "credit_assignment_",
        wrapper_kind,
        "_wrapper_",
        decimal::u64_text(process_id as u64).as_str(),
        "_",
        decimal::u64_text(number).as_str(),
        ".sock",
    )
}

/// The sockets of one process and kind have different names.
pub proof fn socket_names_are_distinct(kind: Seq<char>, process_id: nat, a: nat, b: nat)
    requires
        socket_name(kind, process_id, a) == socket_name(kind, process_id, b),
    ensures
        a == b,
{
    let head = "credit_assignment_"@ + kind + "_wrapper_"@ + decimal::decimal(process_id) + "_"@;
    let tail = ".sock"@;
    let x = socket_name(kind, process_id, a);
    let y = socket_name(kind, process_id, b);
    let p = head.len() as int;
    assert(x.subrange(p, x.len() - tail.len()) =~= decimal::decimal(a));
    assert(y.subrange(p, y.len() - tail.len()) =~= decimal::decimal(b));
    decimal::decimal_text_is_injective(a, b);
}

/// The path of a socket as a command line argument. `path` is the path as text, if it is text;
/// `shown` is the path as it is shown.
pub fn socket_path_to_arg(path: Option<String>, shown: &str) -> (r: Result<String, LaunchFault>)
    ensures
        match r {
            Ok(arg) => path is Some && arg@ == path->0@,
            Err(LaunchFault::SocketPath { path: p }) => path is None && p@ == shown@,
            Err(_) => false,
        },
{
    match path {
        Some(arg) => Ok(arg),
        None => Err(LaunchFault::SocketPath { path: shown.to_owned() }),
    }
}

/// What came of the removal of a socket.
#[derive(Debug)]
pub enum Removal {
    Removed,
    /// There was no socket.
    NotFound,
    Failed(String),
}

/// The fault of which a removal is worth a warning.
pub fn cleanup_socket_path(shown: &str, removal: Removal) -> (r: Option<LaunchFault>)
    ensures
        match removal {
            Removal::Failed(e) => {
                &&& r is Some
                &&& r->0 is RemoveSocket
                &&& r->0->RemoveSocket_path@ == shown@
                &&& r->0->RemoveSocket_error == e
            },
            _ => r is None,
        },
{
    match removal {
        Removal::Failed(error) => Some(
            LaunchFault::RemoveSocket { path: shown.to_owned(), error },
        ),
        _ => None,
    }
}

// ---------------------------------------------------------------------------
// Listening
// ---------------------------------------------------------------------------

/// What a listener waits for.
#[derive(Clone, Copy, Debug, PartialEq, Eq, Structural)]
pub enum ListenerPhase {
    /// The wrapper to connect, or the order to stop.
    Accepting,
    /// The end of what the wrapper sends, or the order to stop.
    Reading,
}

/// What happened to a listener.
#[derive(Debug)]
pub enum ListenerEvent {
    /// The listener was ordered to stop.
    Stop,
    Connected,
    AcceptFailed(String),
    /// The reader ended, with or without a fault.
    ReaderEnded(Result<(), LaunchFault>),
    /// The reader's task failed.
    ReaderFailed(String),
}

/// What a listener does next.
#[derive(Debug)]
pub enum ListenerStep {
    Accept,
    /// Start to read, and wait.
    Read,
    /// Wait as before.
    Wait,
    /// Stop the reader, then end.
    StopReader,
    End(Result<(), LaunchFault>),
}

/// What a listener does first, given whether it was ordered to stop already.
pub fn begin_listening(stopped: bool) -> (r: ListenerStep)
    ensures
        r == (if stopped {
            ListenerStep::End(Ok(()))
        } else {
            ListenerStep::Accept
        }),
{
    if stopped {
        ListenerStep::End(Ok(()))
    } else {
        ListenerStep::Accept
    }
}

/// What a listener does about an event.
pub fn run_wrapper_tui_listener(
    wrapper_name: &str,
    shown_path: &str,
    phase: ListenerPhase,
    event: ListenerEvent,
) -> (r: ListenerStep)
    ensures
        match (phase, event) {
            (ListenerPhase::Accepting, ListenerEvent::Stop) => r == ListenerStep::End(Ok(())),
            (ListenerPhase::Accepting, ListenerEvent::Connected) => r == ListenerStep::Read,
            (ListenerPhase::Accepting, ListenerEvent::AcceptFailed(e)) => {
                &&& r is End
                &&& r->End_0 is Err
                &&& r->End_0->Err_0 is Accept
                &&& r->End_0->Err_0->Accept_kind@ == wrapper_name@
                &&& r->End_0->Err_0->Accept_path@ == shown_path@
                &&& r->End_0->Err_0->Accept_error == e
            },
            (ListenerPhase::Reading, ListenerEvent::Stop) => r == ListenerStep::StopReader,
            (ListenerPhase::Reading, ListenerEvent::ReaderEnded(result)) => r
                == ListenerStep::End(result),
            (ListenerPhase::Reading, ListenerEvent::ReaderFailed(e)) => {
                &&& r is End
                &&& r->End_0 is Err
                &&& r->End_0->Err_0 is ReaderJoin
                &&& r->End_0->Err_0->ReaderJoin_kind@ == wrapper_name@
                &&& r->End_0->Err_0->ReaderJoin_error == e
            },
            _ => r == ListenerStep::Wait,
        },
{
    match phase {
        ListenerPhase::Accepting => match event {
            ListenerEvent::Stop => ListenerStep::End(Ok(())),
            ListenerEvent::Connected => ListenerStep::Read,
            ListenerEvent::AcceptFailed(error) => ListenerStep::End(
                Err(
                    LaunchFault::Accept {
                        kind: wrapper_name.to_owned(),
                        path: shown_path.to_owned(),
                        error,
                    },
                ),
            ),
            _ => ListenerStep::Wait,
        },
        ListenerPhase::Reading => match event {
            ListenerEvent::Stop => ListenerStep::StopReader,
            ListenerEvent::ReaderEnded(result) => ListenerStep::End(result),
            ListenerEvent::ReaderFailed(error) => ListenerStep::End(
                Err(LaunchFault::ReaderJoin { kind: wrapper_name.to_owned(), error }),
            ),
            _ => ListenerStep::Wait,
        },
    }
}

/// Whether a line that a wrapper sent holds a message: lines of white space do not.
pub fn holds_message(line: &str) -> (r: bool)
    ensures
        r == !text::blank(line@),
{
    !text::is_blank(line)
}

/// What is done with a line that a wrapper sent.
#[derive(Debug)]
pub enum LineOutcome {
    Log(TuiMessage),
    Warn(LaunchFault),
}

/// What is done with a line that a wrapper sent, given what reading it as a message gave.
pub fn take_line(wrapper_name: &str, line: &str, parsed: Result<TuiMessage, String>) -> (r:
    LineOutcome)
    ensures
        match parsed {
            Ok(message) => r == LineOutcome::Log(message),
            Err(e) => {
                &&& r is Warn
                &&& r->Warn_0 is ParseMessage
                &&& r->Warn_0->ParseMessage_kind@ == wrapper_name@
                &&& r->Warn_0->ParseMessage_error == e
                &&& r->Warn_0->ParseMessage_payload@ == line@
            },
        },
{
    match parsed {
        Ok(message) => LineOutcome::Log(message),
        Err(error) => LineOutcome::Warn(
            LaunchFault::ParseMessage {
                kind: wrapper_name.to_owned(),
                error,
                payload: line.to_owned(),
            },
        ),
    }
}

// ---------------------------------------------------------------------------
// Faults
// ---------------------------------------------------------------------------

/// What went wrong with a wrapper process. The texts are those of the underlying errors.
#[derive(Debug)]
pub enum LaunchFault {
    Wait { error: String },
    SerializeStdin { kind: String, error: String },
    Launch { kind: String, error: String },
    Bind { kind: String, path: String, error: String },
    SocketPath { path: String },
    StdinUnavailable { kind: String },
    WriteStdin { kind: String, error: String },
    CloseStdin { kind: String, error: String },
    Listener { kind: String, error: String },
    Accept { kind: String, path: String, error: String },
    ReaderJoin { kind: String, error: String },
    ParseMessage { kind: String, error: String, payload: String },
    ReadStream { kind: String, error: String },
    RemoveSocket { path: String, error: String },
}

impl LaunchFault {
    /// The fault in words.
    pub open spec fn words(self) -> Seq<char> {
        match self {
            LaunchFault::Wait { error } => "failed while waiting for child process: "@ + error@,
            LaunchFault::SerializeStdin { kind, error } => "failed to serialize "@ + kind@
                + " stdin payload as JSON: "@ + error@,
            LaunchFault::Launch { kind, error } => "failed to launch "@ + kind@
                + " wrapper process: "@ + error@,
            LaunchFault::Bind { kind, path, error } => "failed to bind Unix socket for "@ + kind@
                + " wrapper TUI listener at "@ + path@ + ": "@ + error@,
            LaunchFault::SocketPath { path } => "socket path is not valid UTF-8: "@ + path@,
            LaunchFault::StdinUnavailable { kind } => kind@
                + " stdin is unavailable; expected a piped stdin handle"@,
            LaunchFault::WriteStdin { kind, error } => "failed to write JSON stdin payload to "@
                + kind@ + ": "@ + error@,
            LaunchFault::CloseStdin { kind, error } => "failed to close "@ + kind@
                + " stdin after writing JSON payload: "@ + error@,
            LaunchFault::Listener { kind, error } => kind@
                + " TUI socket listener ended with error: "@ + error@,
            LaunchFault::Accept { kind, path, error } => "failed while accepting "@ + kind@
                + " Unix socket connection at "@ + path@ + ": "@ + error@,
            LaunchFault::ReaderJoin { kind, error } => kind@
                + " TUI socket reader task join failure: "@ + error@,
            LaunchFault::ParseMessage { kind, error, payload } => "failed to parse "@ + kind@
                + " TUI socket message as TuiMessage: "@ + error@ + " (payload="@ + payload@ + ")"@,
            LaunchFault::ReadStream { kind, error } => "failed while reading "@ + kind@
                + " TUI socket stream: "@ + error@,
            LaunchFault::RemoveSocket { path, error } => "failed to remove Unix socket path "@
                + path@ + ": "@ + error@,
        }
    }

    pub fn text(&self) -> (s: String)
        ensures
            s@ == self.words(),
    {
        match self {
            LaunchFault::Wait { error } => text::join2(
                "failed while waiting for child process: ",
                error.as_str(),
            ),
            LaunchFault::SerializeStdin { kind, error } => text::join4(
                "failed to serialize ",
                kind.as_str(),
                " stdin payload as JSON: ",
                error.as_str(),
            ),
            LaunchFault::Launch { kind, error } => text::join4(
                "failed to launch ",
                kind.as_str(),
                " wrapper process: ",
                error.as_str(),
            ),
            LaunchFault::Bind { kind, path, error } => text::join6(
                "failed to bind Unix socket for ",
                kind.as_str(),
                " wrapper TUI listener at ",
                path.as_str(),
                ": ",
                error.as_str(),
            ),
            LaunchFault::SocketPath { path } => text::join2(
                "socket path is not valid UTF-8: ",
                path.as_str(),
            ),
            LaunchFault::StdinUnavailable { kind } => text::join2(
                kind.as_str(),
                " stdin is unavailable; expected a piped stdin handle",
            ),
            LaunchFault::WriteStdin { kind, error } => text::join4(
                "failed to write JSON stdin payload to ",
                kind.as_str(),
                ": ",
                error.as_str(),
            ),
            LaunchFault::CloseStdin { kind, error } => text::join4(
                "failed to close ",
                kind.as_str(),
                " stdin after writing JSON payload: ",
                error.as_str(),
            ),
            LaunchFault::Listener { kind, error } => text::join3(
                kind.as_str(),
                " TUI socket listener ended with error: ",
                error.as_str(),
            ),
            LaunchFault::Accept { kind, path, error } => text::join6(
                "failed while accepting ",
                kind.as_str(),
                " Unix socket connection at ",
                path.as_str(),
                ": ",
                error.as_str(),
            ),
            LaunchFault::ReaderJoin { kind, error } => text::join3(
                kind.as_str(),
                " TUI socket reader task join failure: ",
                error.as_str(),
            ),
            LaunchFault::ParseMessage { kind, error, payload } => text::join7(
                "failed to parse ",
                kind.as_str(),
                " TUI socket message as TuiMessage: ",
                error.as_str(),
                " (payload=",
                payload.as_str(),
                ")",
            ),
            LaunchFault::ReadStream { kind, error } => text::join4(
                "failed while reading ",
                kind.as_str(),
                " TUI socket stream: ",
                error.as_str(),
            ),
            LaunchFault::RemoveSocket { path, error } => text::join4(
                "failed to remove Unix socket path ",
                path.as_str(),
                ": ",
                error.as_str(),
            ),
        }
    }
}

// ---------------------------------------------------------------------------
// Laws
// ---------------------------------------------------------------------------

/// The command line runs the module with the path of its socket, and then gives each argument, its
/// name before its value, in the order in which they were added.
pub proof fn command_lines_give_every_argument(
    launcher: PythonProcessLauncher,
    socket_path: Seq<char>,
    i: int,
)
    ensures
        ({
            let line = launcher.command_line(socket_path);
            let args = launcher.arguments();
            &&& line.len() == 6 + 2 * args.len()
            &&& line[0] == "run"@
            &&& line[1] == "python"@
            &&& line[2] == "-m"@
            &&& line[3] == launcher.module@
            &&& line[4] == "--orchestrator-socket-path"@
            &&& line[5] == socket_path
            &&& 0 <= i < args.len() ==> line[6 + 2 * i] == args[i].0 && line[7 + 2 * i] == args[i].1
        }),
        RUNNER@ == "uv"@,
{
    let args = launcher.arguments();
    lemma_flattened(args, i);
    let flat = flattened(args);
    let line = launcher.command_line(socket_path);
    if 0 <= i < args.len() {
        assert(line[6 + 2 * i] == flat[2 * i]);
        assert(line[7 + 2 * i] == flat[2 * i + 1]);
    }
}

proof fn lemma_flattened(args: Seq<(Seq<char>, Seq<char>)>, i: int)
    ensures
        flattened(args).len() == 2 * args.len(),
        0 <= i < args.len() ==> flattened(args)[2 * i] == args[i].0 && flattened(args)[2 * i + 1]
            == args[i].1,
    decreases args.len(),
{
    if args.len() > 0 {
        let init = args.drop_last();
        lemma_flattened(init, i);
        if 0 <= i < init.len() {
            assert(init[i] == args[i]);
        }
    }
}

/// The name of a socket tells the kind of the wrapper, the process and the number of the socket.
pub proof fn socket_names_in_full(kind: Seq<char>, process_id: nat, number: nat)
    ensures
        socket_name(kind, process_id, number) == "credit_assignment_"@ + kind + "_wrapper_"@
            + decimal::decimal(process_id) + "_"@ + decimal::decimal(number) + ".sock"@,
{
}

/// Every fault tells what was done, for which kind of process, and why it failed.
pub proof fn faults_tell_what_failed(fault: LaunchFault)
    ensures
        match fault {
            LaunchFault::Wait { error } => fault.words()
                == "failed while waiting for child process: "@ + error@,
            LaunchFault::SerializeStdin { kind, error } => fault.words()
                == "failed to serialize "@ + kind@ + " stdin payload as JSON: "@ + error@,
            LaunchFault::Launch { kind, error } => fault.words()
                == "failed to launch "@ + kind@ + " wrapper process: "@ + error@,
            LaunchFault::Bind { kind, path, error } => fault.words()
                == "failed to bind Unix socket for "@ + kind@ + " wrapper TUI listener at "@
                + path@ + ": "@ + error@,
            LaunchFault::SocketPath { path } => fault.words()
                == "socket path is not valid UTF-8: "@ + path@,
            LaunchFault::StdinUnavailable { kind } => fault.words()
                == kind@ + " stdin is unavailable; expected a piped stdin handle"@,
            LaunchFault::WriteStdin { kind, error } => fault.words()
                == "failed to write JSON stdin payload to "@ + kind@ + ": "@ + error@,
            LaunchFault::CloseStdin { kind, error } => fault.words()
                == "failed to close "@ + kind@ + " stdin after writing JSON payload: "@ + error@,
            LaunchFault::Listener { kind, error } => fault.words()
                == kind@ + " TUI socket listener ended with error: "@ + error@,
            LaunchFault::Accept { kind, path, error } => fault.words()
                == "failed while accepting "@ + kind@ + " Unix socket connection at "@ + path@
                + ": "@ + error@,
            LaunchFault::ReaderJoin { kind, error } => fault.words()
                == kind@ + " TUI socket reader task join failure: "@ + error@,
            LaunchFault::ParseMessage { kind, error, payload } => fault.words()
                == "failed to parse "@ + kind@ + " TUI socket message as TuiMessage: "@ + error@
                + " (payload="@ + payload@ + ")"@,
            LaunchFault::ReadStream { kind, error } => fault.words()
                == "failed while reading "@ + kind@ + " TUI socket stream: "@ + error@,
            LaunchFault::RemoveSocket { path, error } => fault.words()
                == "failed to remove Unix socket path "@ + path@ + ": "@ + error@,
        },
{
}

}
