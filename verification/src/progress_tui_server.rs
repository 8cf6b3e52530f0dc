//! A progress server: it keeps the state of a progress display and sends it to clients.

use crate::float_bits::Float32;
use crate::message::{Severity, TuiMessage};
use crate::progress_tui_protocol::{
    ProgressClientMessage, ProgressServerMessage, ProgressStats, StatsView, DEFAULT_WINDOW_NAME,
    SERVER_DISCONNECTED_HINT,
};
use crate::text_map::Duplicate;
use vstd::prelude::*;

verus! {

/// How many messages a client may lag behind before it misses some.
pub const SERVER_BROADCAST_CHANNEL_CAPACITY: usize = 1024;

/// What a running server holds.
#[derive(Debug)]
pub struct ProgressTuiServer {
    pub stats: ProgressStats,
}

/// What is to be done with a message that was logged.
#[derive(Debug)]
pub enum Logged {
    /// There is no server: the message is printed.
    Print(TuiMessage),
    /// The line goes to the log file, if there is one, and the message to all clients.
    Broadcast { file_line: Option<String>, message: TuiMessage },
}

/// The line of the log file for a message. Only log lines have one.
pub open spec fn file_line_of(message: TuiMessage) -> Option<Seq<char>> {
    match message {
        TuiMessage::Line { message, .. } => Some(message@),
        _ => None,
    }
}

/// The line of the log file for a message.
pub fn line_for_log_file(message: &TuiMessage) -> (r: Option<String>)
    ensures
        match r {
            Some(line) => file_line_of(*message) == Some(line@),
            None => file_line_of(*message) is None,
        },
{
    match message {
        TuiMessage::Line { message: line, .. } => Some(line.clone()),
        _ => None,
    }
}

impl ProgressTuiServer {
    pub open spec fn wf(self) -> bool {
        self.stats.wf()
    }

    /// A server before its first message.
    pub fn new() -> (r: ProgressTuiServer)
        ensures
            r.wf(),
            r.stats@ == StatsView::initial(DEFAULT_WINDOW_NAME@, SERVER_DISCONNECTED_HINT@),
    {
        ProgressTuiServer { stats: ProgressStats::default() }
    }
}

/// A server that is not running or is well-formed.
pub open spec fn server_wf(server: Option<ProgressTuiServer>) -> bool {
    server is Some ==> server->0.wf()
}

/// How a server, running or not, takes a message.
pub open spec fn logged(
    before: Option<ProgressTuiServer>,
    after: Option<ProgressTuiServer>,
    message: TuiMessage,
    r: Logged,
) -> bool {
    match before {
        None => after is None && r == Logged::Print(message),
        Some(b) => {
            &&& after is Some
            &&& after->0.wf()
            &&& after->0.stats@ == b.stats@.applied(message)
            &&& r is Broadcast
            &&& r->message == message
            &&& match r->file_line {
                Some(line) => file_line_of(message) == Some(line@),
                None => file_line_of(message) is None,
            }
        },
    }
}

pub fn log_message(server: &mut Option<ProgressTuiServer>, message: TuiMessage) -> (r: Logged)
    requires
        server_wf(*old(server)),
        *old(server) is Some ==> message.in_range(),
    ensures
        server_wf(*final(server)),
        logged(*old(server), *final(server), message, r),
{
    match server {
        None => Logged::Print(message),
        Some(running) => {
            let file_line = line_for_log_file(&message);
            running.stats.apply_message(&message);
            Logged::Broadcast { file_line, message }
        },
    }
}

pub fn log_info(
    server: &mut Option<ProgressTuiServer>,
    message: String,
) -> (r: Logged)
    requires
        server_wf(*old(server)),
    ensures
        server_wf(*final(server)),
        logged(*old(server), *final(server), (TuiMessage::Line { message, severity: Severity::Info }), r),
{
    log_message(server, TuiMessage::Line { message, severity: Severity::Info })
}

pub fn log_warning(
    server: &mut Option<ProgressTuiServer>,
    message: String,
) -> (r: Logged)
    requires
        server_wf(*old(server)),
    ensures
        server_wf(*final(server)),
        logged(*old(server), *final(server), (TuiMessage::Line { message, severity: Severity::Warning }), r),
{
    log_message(server, TuiMessage::Line { message, severity: Severity::Warning })
}

pub fn log_error(
    server: &mut Option<ProgressTuiServer>,
    message: String,
) -> (r: Logged)
    requires
        server_wf(*old(server)),
    ensures
        server_wf(*final(server)),
        logged(*old(server), *final(server), (TuiMessage::Line { message, severity: Severity::Error }), r),
{
    log_message(server, TuiMessage::Line { message, severity: Severity::Error })
}

pub fn log_state(
    server: &mut Option<ProgressTuiServer>,
    state: String,
) -> (r: Logged)
    requires
        server_wf(*old(server)),
    ensures
        server_wf(*final(server)),
        logged(*old(server), *final(server), (TuiMessage::State { state }), r),
{
    log_message(server, TuiMessage::State { state })
}

pub fn log_window_name(
    server: &mut Option<ProgressTuiServer>,
    window_name: String,
) -> (r: Logged)
    requires
        server_wf(*old(server)),
    ensures
        server_wf(*final(server)),
        logged(*old(server), *final(server), (TuiMessage::WindowName { window_name }), r),
{
    log_message(server, TuiMessage::WindowName { window_name })
}

pub fn log_key_value_pair(
    server: &mut Option<ProgressTuiServer>,
    key: String,
    value: String,
) -> (r: Logged)
    requires
        server_wf(*old(server)),
    ensures
        server_wf(*final(server)),
        logged(*old(server), *final(server), (TuiMessage::KeyValuePair { key, value }), r),
{
    log_message(server, TuiMessage::KeyValuePair { key, value })
}

pub fn log_master_progress(
    server: &mut Option<ProgressTuiServer>,
    progress: Float32,
    label: String,
) -> (r: Logged)
    requires
        server_wf(*old(server)),
        *old(server) is Some ==> progress.in_unit_range(),
    ensures
        server_wf(*final(server)),
        logged(*old(server), *final(server), (TuiMessage::MasterProgress { progress, label }), r),
{
    log_message(server, TuiMessage::MasterProgress { progress, label })
}

pub fn log_worker_progress(
    server: &mut Option<ProgressTuiServer>,
    worker_name: String,
    progress: Float32,
    label: String,
) -> (r: Logged)
    requires
        server_wf(*old(server)),
        *old(server) is Some ==> progress.in_unit_range(),
    ensures
        server_wf(*final(server)),
        logged(*old(server), *final(server), (TuiMessage::WorkerProgress { worker_name, progress, label }), r),
{
    log_message(server, TuiMessage::WorkerProgress { worker_name, progress, label })
}

pub fn delete_worker_progress_bar(
    server: &mut Option<ProgressTuiServer>,
    worker_name: String,
) -> (r: Logged)
    requires
        server_wf(*old(server)),
    ensures
        server_wf(*final(server)),
        logged(*old(server), *final(server), (TuiMessage::DeleteWorkerBar { worker_name }), r),
{
    log_message(server, TuiMessage::DeleteWorkerBar { worker_name })
}

// ---------------------------------------------------------------------------
// Clients
// ---------------------------------------------------------------------------

/// What happened on the connection to a client.
#[derive(Debug)]
pub enum ClientEvent {
    /// The client sent a message.
    Received(ProgressClientMessage),
    /// The client closed the connection.
    Closed,
    /// A message was logged.
    Update(TuiMessage),
    /// The client lagged behind and missed messages.
    Lagged,
    /// No more messages will be logged.
    UpdatesClosed,
}

/// What the server does about it.
#[derive(Debug)]
pub enum ClientStep {
    Send(ProgressServerMessage),
    RunCommand(String),
    Nothing,
    Close,
}

/// What the server does about an event on the connection to a client.
pub fn handle_client(stats: &ProgressStats, event: ClientEvent) -> (r: ClientStep)
    requires
        stats.wf(),
    ensures
        match event {
            ClientEvent::Received(ProgressClientMessage::SnapshotRequest) => {
                &&& r is Send
                &&& r->Send_0 is Snapshot
                &&& r->Send_0->Snapshot_0.wf()
                &&& r->Send_0->Snapshot_0@ == stats@
            },
            ClientEvent::Received(ProgressClientMessage::SubmitCommand { command }) => r
                == ClientStep::RunCommand(command),
            ClientEvent::Closed => r == ClientStep::Close,
            ClientEvent::Update(message) => r == ClientStep::Send(
                ProgressServerMessage::Update(message),
            ),
            ClientEvent::Lagged => r == ClientStep::Nothing,
            ClientEvent::UpdatesClosed => r == ClientStep::Close,
        },
{
    match event {
        ClientEvent::Received(ProgressClientMessage::SnapshotRequest) => ClientStep::Send(
            ProgressServerMessage::Snapshot(stats.duplicate()),
        ),
        ClientEvent::Received(
            ProgressClientMessage::SubmitCommand { command },
        ) => ClientStep::RunCommand(command),
        ClientEvent::Closed => ClientStep::Close,
        ClientEvent::Update(message) => ClientStep::Send(ProgressServerMessage::Update(message)),
        ClientEvent::Lagged => ClientStep::Nothing,
        ClientEvent::UpdatesClosed => ClientStep::Close,
    }
}

// ---------------------------------------------------------------------------
// Laws
// ---------------------------------------------------------------------------

/// A running server takes every message into its state and sends it on unchanged; a log line, and
/// nothing else, goes to the log file with just its text. Without a server a message comes back to
/// be printed.
pub proof fn servers_send_every_message(
    before: ProgressTuiServer,
    after: Option<ProgressTuiServer>,
    message: TuiMessage,
    r: Logged,
)
    requires
        logged(Some(before), after, message, r),
    ensures
        after is Some,
        after->0.stats@ == before.stats@.applied(message),
        r is Broadcast,
        r->message == message,
        message is Line ==> r->file_line is Some && r->file_line->0@ == message->Line_message@,
        !(message is Line) ==> r->file_line is None,
        logged(None, None, message, Logged::Print(message)),
{
}

/// A client may fall behind by a thousand and twenty-four messages.
pub proof fn clients_may_fall_behind()
    ensures
        SERVER_BROADCAST_CHANNEL_CAPACITY == 1024,
{
}

}
