//! Messages about the progress of a program.

use crate::float_bits::Float32;
use crate::text;
use vstd::prelude::*;

verus! {

/// How much a log line matters.
#[derive(Clone, Copy, Debug, PartialEq, Eq, Structural)]
pub enum Severity {
    Info,
    Warning,
    Error,
    /// Detail that only a full log keeps.
    Verbose,
}

/// A message to a progress display.
#[derive(Debug)]
pub enum TuiMessage {
    Line { message: String, severity: Severity },
    State { state: String },
    WindowName { window_name: String },
    KeyValuePair { key: String, value: String },
    WorkerProgress { worker_name: String, progress: Float32, label: String },
    MasterProgress { progress: Float32, label: String },
    DeleteWorkerBar { worker_name: String },
    ExitHint(String),
}

/// A message to a progress screen in the same process.
#[derive(Debug)]
pub enum MyLogMessage {
    Line { message: String, severity: Severity },
    KeyValuePair { key: String, value: String },
    WorkerProgress { worker_name: String, progress: Float32, label: String },
    MasterProgress { progress: Float32, label: String },
}

impl Severity {
    /// What a printed line begins with.
    pub open spec fn prefix(self) -> Seq<char> {
        match self {
            Severity::Info => "INFO: "@,
            Severity::Warning => "WARNING: "@,
            Severity::Error => "ERROR: "@,
            Severity::Verbose => "VERBOSE: "@,
        }
    }

    fn prefix_text(self) -> (s: &'static str)
        ensures
            s@ == self.prefix(),
    {
        match self {
            Severity::Info => "INFO: ",
            Severity::Warning => "WARNING: ",
            Severity::Error => "ERROR: ",
            Severity::Verbose => "VERBOSE: ",
        }
    }
}

pub open spec fn worker_line(worker: Seq<char>, label: Seq<char>, progress_text: Seq<char>) -> Seq<
    char,
> {
    "Worker "@ + worker + " Progress - "@ + label + ": "@ + progress_text + "%"@
}

pub open spec fn master_line(label: Seq<char>, progress_text: Seq<char>) -> Seq<char> {
    "Master Progress - "@ + label + ": "@ + progress_text + "%"@
}

impl TuiMessage {
    /// The progress that the message reports, if it reports one.
    pub open spec fn progress_of(self) -> Option<Float32> {
        match self {
            TuiMessage::WorkerProgress { progress, .. } => Some(progress),
            TuiMessage::MasterProgress { progress, .. } => Some(progress),
            _ => None,
        }
    }

    /// A progress that the message reports lies in the range from 0 to 1.
    pub open spec fn in_range(self) -> bool {
        self.progress_of() is Some ==> self.progress_of()->0.in_unit_range()
    }

    pub fn progress(&self) -> (r: Option<Float32>)
        ensures
            r == self.progress_of(),
    {
        match self {
            TuiMessage::WorkerProgress { progress, .. } => Some(*progress),
            TuiMessage::MasterProgress { progress, .. } => Some(*progress),
            _ => None,
        }
    }

    /// Whether a progress that the message reports lies in the range from 0 to 1.
    pub fn is_in_range(&self) -> (r: bool)
        ensures
            r == self.in_range(),
    {
        match self.progress() {
            Some(progress) => progress.is_in_unit_range(),
            None => true,
        }
    }

    /// The message as one line. `progress_text` is the number of a progress message, written
    /// with two decimals.
    pub open spec fn words(self, progress_text: Seq<char>) -> Seq<char> {
        match self {
            TuiMessage::Line { message, severity } => severity.prefix() + message@,
            TuiMessage::State { state } => "STATE: "@ + state@,
            TuiMessage::WindowName { window_name } => "WINDOW NAME: "@ + window_name@,
            TuiMessage::KeyValuePair { key, value } => key@ + ": "@ + value@,
            TuiMessage::WorkerProgress { worker_name, label, .. } => worker_line(
                worker_name@,
                label@,
                progress_text,
            ),
            TuiMessage::MasterProgress { label, .. } => master_line(label@, progress_text),
            TuiMessage::DeleteWorkerBar { worker_name } => "Delete progress bar for worker "@
                + worker_name@,
            TuiMessage::ExitHint(hint) => "EXIT HINT: "@ + hint@,
        }
    }

    pub fn to_string(&self, progress_text: &str) -> (s: String)
        ensures
            s@ == self.words(progress_text@),
    {
        match self {
            TuiMessage::Line { message, severity } => text::join2(
                severity.prefix_text(),
                message.as_str(),
            ),
            TuiMessage::State { state } => text::join2("STATE: ", state.as_str()),
            TuiMessage::WindowName { window_name } => text::join2(
                "WINDOW NAME: ",
                window_name.as_str(),
            ),
            TuiMessage::KeyValuePair { key, value } => text::join3(
                key.as_str(),
                ": ",
                value.as_str(),
            ),
            TuiMessage::WorkerProgress { worker_name, label, .. } => text::join7(
                "Worker ",
                worker_name.as_str(),
                " Progress - ",
                label.as_str(),
                ": ",
                progress_text,
                "%",
            ),
            TuiMessage::MasterProgress { label, .. } => text::join5(
                "Master Progress - ",
                label.as_str(),
                ": ",
                progress_text,
                "%",
            ),
            TuiMessage::DeleteWorkerBar { worker_name } => text::join2(
                "Delete progress bar for worker ",
                worker_name.as_str(),
            ),
            TuiMessage::ExitHint(hint) => text::join2("EXIT HINT: ", hint.as_str()),
        }
    }
}

impl MyLogMessage {
    pub open spec fn progress_of(self) -> Option<Float32> {
        match self {
            MyLogMessage::WorkerProgress { progress, .. } => Some(progress),
            MyLogMessage::MasterProgress { progress, .. } => Some(progress),
            _ => None,
        }
    }

    /// A progress that the message reports lies in the range from 0 to 1.
    pub open spec fn in_range(self) -> bool {
        self.progress_of() is Some ==> self.progress_of()->0.in_unit_range()
    }

    pub fn progress(&self) -> (r: Option<Float32>)
        ensures
            r == self.progress_of(),
    {
        match self {
            MyLogMessage::WorkerProgress { progress, .. } => Some(*progress),
            MyLogMessage::MasterProgress { progress, .. } => Some(*progress),
            _ => None,
        }
    }

    pub fn is_in_range(&self) -> (r: bool)
        ensures
            r == self.in_range(),
    {
        match self.progress() {
            Some(progress) => progress.is_in_unit_range(),
            None => true,
        }
    }

    /// The message as one line. `progress_text` is the number of a progress message, written
    /// with two decimals.
    pub open spec fn words(self, progress_text: Seq<char>) -> Seq<char> {
        match self {
            MyLogMessage::Line { message, severity } => severity.prefix() + message@,
            MyLogMessage::KeyValuePair { key, value } => key@ + ": "@ + value@,
            MyLogMessage::WorkerProgress { worker_name, label, .. } => worker_line(
                worker_name@,
                label@,
                progress_text,
            ),
            MyLogMessage::MasterProgress { label, .. } => master_line(label@, progress_text),
        }
    }

    pub fn to_string(&self, progress_text: &str) -> (s: String)
        ensures
            s@ == self.words(progress_text@),
    {
        match self {
            MyLogMessage::Line { message, severity } => text::join2(
                severity.prefix_text(),
                message.as_str(),
            ),
            MyLogMessage::KeyValuePair { key, value } => text::join3(
                key.as_str(),
                ": ",
                value.as_str(),
            ),
            MyLogMessage::WorkerProgress { worker_name, label, .. } => text::join7(
                "Worker ",
                worker_name.as_str(),
                " Progress - ",
                label.as_str(),
                ": ",
                progress_text,
                "%",
            ),
            MyLogMessage::MasterProgress { label, .. } => text::join5(
                "Master Progress - ",
                label.as_str(),
                ": ",
                progress_text,
                "%",
            ),
        }
    }
}

/// Only progress messages report a progress, each the one that it was made with; such a message is
/// in range exactly where its progress is.
pub proof fn progress_messages_report_their_progress(message: TuiMessage)
    ensures
        match message {
            TuiMessage::WorkerProgress { progress, .. } => message.progress_of() == Some(progress)
                && message.in_range() == progress.in_unit_range(),
            TuiMessage::MasterProgress { progress, .. } => message.progress_of() == Some(progress)
                && message.in_range() == progress.in_unit_range(),
            _ => message.progress_of() is None && message.in_range(),
        },
{
}

/// The same holds of the messages to a screen in the same process.
pub proof fn screen_messages_report_their_progress(message: MyLogMessage)
    ensures
        match message {
            MyLogMessage::WorkerProgress { progress, .. } => message.progress_of() == Some(
                progress,
            ) && message.in_range() == progress.in_unit_range(),
            MyLogMessage::MasterProgress { progress, .. } => message.progress_of() == Some(
                progress,
            ) && message.in_range() == progress.in_unit_range(),
            _ => message.progress_of() is None && message.in_range(),
        },
{
}

/// A log line is printed behind a word for its severity.
pub proof fn lines_are_printed_with_their_severity(message: String, progress_text: Seq<char>)
    ensures
        (TuiMessage::Line { message, severity: Severity::Info }).words(progress_text) == "INFO: "@
            + message@,
        (TuiMessage::Line { message, severity: Severity::Warning }).words(progress_text)
            == "WARNING: "@ + message@,
        (TuiMessage::Line { message, severity: Severity::Error }).words(progress_text) == "ERROR: "@
            + message@,
        (TuiMessage::Line { message, severity: Severity::Verbose }).words(progress_text)
            == "VERBOSE: "@ + message@,
{
}

/// The other messages are printed with the names and texts that they hold.
pub proof fn messages_are_printed_with_what_they_hold(
    a: String,
    b: String,
    progress: Float32,
    n: Seq<char>,
)
    ensures
        (TuiMessage::State { state: a }).words(n) == "STATE: "@ + a@,
        (TuiMessage::WindowName { window_name: a }).words(n) == "WINDOW NAME: "@ + a@,
        (TuiMessage::KeyValuePair { key: a, value: b }).words(n) == a@ + ": "@ + b@,
        (TuiMessage::WorkerProgress { worker_name: a, progress, label: b }).words(n) == "Worker "@
            + a@ + " Progress - "@ + b@ + ": "@ + n + "%"@,
        (TuiMessage::MasterProgress { progress, label: b }).words(n) == "Master Progress - "@ + b@
            + ": "@ + n + "%"@,
        (TuiMessage::DeleteWorkerBar { worker_name: a }).words(n)
            == "Delete progress bar for worker "@ + a@,
        TuiMessage::ExitHint(a).words(n) == "EXIT HINT: "@ + a@,
{
}

/// A message to a screen in the same process is printed as the same message to any display.
pub proof fn both_kinds_of_messages_are_printed_alike(
    a: String,
    b: String,
    severity: Severity,
    progress: Float32,
    n: Seq<char>,
)
    ensures
        (MyLogMessage::Line { message: a, severity }).words(n) == (TuiMessage::Line {
            message: a,
            severity,
        }).words(n),
        (MyLogMessage::KeyValuePair { key: a, value: b }).words(n) == (TuiMessage::KeyValuePair {
            key: a,
            value: b,
        }).words(n),
        (MyLogMessage::WorkerProgress { worker_name: a, progress, label: b }).words(n) == (
        TuiMessage::WorkerProgress { worker_name: a, progress, label: b }).words(n),
        (MyLogMessage::MasterProgress { progress, label: b }).words(n) == (
        TuiMessage::MasterProgress { progress, label: b }).words(n),
{
}

}
