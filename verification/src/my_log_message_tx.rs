//! Messages to whoever listens in the same process.

use crate::float_bits::Float32;
use crate::message::{MyLogMessage, Severity};
use vstd::prelude::*;

verus! {

/// Whether someone listens to messages, and whether messages are printed when no one does.
#[derive(Clone, Copy, Debug, PartialEq, Eq, Structural)]
pub struct LogOutlet {
    pub has_listener: bool,
    pub fall_back_to_stdout: bool,
}

/// Where a message goes.
#[derive(Debug)]
pub enum Route {
    /// To the listener, who has to take it.
    Listener(MyLogMessage),
    /// To the standard output.
    Print(MyLogMessage),
    /// Nowhere.
    Drop,
}

impl LogOutlet {
    /// No listener, and nothing printed.
    pub fn new() -> (r: LogOutlet)
        ensures
            r == (LogOutlet { has_listener: false, fall_back_to_stdout: false }),
    {
        LogOutlet { has_listener: false, fall_back_to_stdout: false }
    }

    /// Where a message goes.
    pub open spec fn routed(self, message: MyLogMessage) -> Route {
        if self.has_listener {
            Route::Listener(message)
        } else if self.fall_back_to_stdout {
            Route::Print(message)
        } else {
            Route::Drop
        }
    }
}

pub fn set_my_log_message_tx(outlet: &mut LogOutlet)
    ensures
        *final(outlet) == (LogOutlet { has_listener: true, ..*old(outlet) }),
{
    outlet.has_listener = true;
}

pub fn clear_my_log_message_tx(outlet: &mut LogOutlet)
    ensures
        *final(outlet) == (LogOutlet { has_listener: false, ..*old(outlet) }),
{
    outlet.has_listener = false;
}

pub fn log_message(outlet: LogOutlet, message: MyLogMessage) -> (r: Route)
    ensures
        r == outlet.routed(message),
{
    if outlet.has_listener {
        Route::Listener(message)
    } else if outlet.fall_back_to_stdout {
        Route::Print(message)
    } else {
        Route::Drop
    }
}

pub fn log_info(outlet: LogOutlet, message: String) -> (r: Route)
    ensures
        r == outlet.routed((MyLogMessage::Line { message, severity: Severity::Info })),
{
    log_message(outlet, MyLogMessage::Line { message, severity: Severity::Info })
}

pub fn log_warning(outlet: LogOutlet, message: String) -> (r: Route)
    ensures
        r == outlet.routed((MyLogMessage::Line { message, severity: Severity::Warning })),
{
    log_message(outlet, MyLogMessage::Line { message, severity: Severity::Warning })
}

pub fn log_error(outlet: LogOutlet, message: String) -> (r: Route)
    ensures
        r == outlet.routed((MyLogMessage::Line { message, severity: Severity::Error })),
{
    log_message(outlet, MyLogMessage::Line { message, severity: Severity::Error })
}

pub fn log_key_value_pair(outlet: LogOutlet, key: String, value: String) -> (r: Route)
    ensures
        r == outlet.routed((MyLogMessage::KeyValuePair { key, value })),
{
    log_message(outlet, MyLogMessage::KeyValuePair { key, value })
}

pub fn log_master_progress(outlet: LogOutlet, progress: Float32, label: String) -> (r: Route)
    ensures
        r == outlet.routed((MyLogMessage::MasterProgress { progress, label })),
{
    log_message(outlet, MyLogMessage::MasterProgress { progress, label })
}

pub fn log_worker_progress(
    outlet: LogOutlet,
    worker_name: String,
    progress: Float32,
    label: String,
) -> (r: Route)
    ensures
        r == outlet.routed((MyLogMessage::WorkerProgress { worker_name, progress, label })),
{
    log_message(outlet, MyLogMessage::WorkerProgress { worker_name, progress, label })
}

/// A message goes to the listener if there is one; without one it is printed if that is wanted,
/// and dropped if not.
pub proof fn listeners_come_first(fall_back_to_stdout: bool, message: MyLogMessage)
    ensures
        (LogOutlet { has_listener: true, fall_back_to_stdout }).routed(message) == Route::Listener(
            message,
        ),
        (LogOutlet { has_listener: false, fall_back_to_stdout: true }).routed(message)
            == Route::Print(message),
        (LogOutlet { has_listener: false, fall_back_to_stdout: false }).routed(message)
            == Route::Drop,
{
}

}
