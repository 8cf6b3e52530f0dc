//! Messages to the progress screen of the same process.

use crate::float_bits::Float32;
use crate::message::{MyLogMessage, Severity};
use vstd::prelude::*;

verus! {

/// Where a message goes.
#[derive(Debug)]
pub enum Route {
    /// To the progress screen. It does not matter whether the screen still takes it.
    Screen(MyLogMessage),
    /// To the standard output.
    Print(MyLogMessage),
}

/// A message goes to the progress screen if there is one, and is printed if not.
pub open spec fn routed(has_screen: bool, message: MyLogMessage) -> Route {
    if has_screen {
        Route::Screen(message)
    } else {
        Route::Print(message)
    }
}

pub fn log_message(has_screen: bool, message: MyLogMessage) -> (r: Route)
    ensures
        r == routed(has_screen, message),
{
    if has_screen {
        Route::Screen(message)
    } else {
        Route::Print(message)
    }
}

pub fn log_info(has_screen: bool, message: String) -> (r: Route)
    ensures
        r == routed(has_screen, (MyLogMessage::Line { message, severity: Severity::Info })),
{
    log_message(has_screen, MyLogMessage::Line { message, severity: Severity::Info })
}

pub fn log_warning(has_screen: bool, message: String) -> (r: Route)
    ensures
        r == routed(has_screen, (MyLogMessage::Line { message, severity: Severity::Warning })),
{
    log_message(has_screen, MyLogMessage::Line { message, severity: Severity::Warning })
}

pub fn log_error(has_screen: bool, message: String) -> (r: Route)
    ensures
        r == routed(has_screen, (MyLogMessage::Line { message, severity: Severity::Error })),
{
    log_message(has_screen, MyLogMessage::Line { message, severity: Severity::Error })
}

pub fn log_key_value_pair(has_screen: bool, key: String, value: String) -> (r: Route)
    ensures
        r == routed(has_screen, (MyLogMessage::KeyValuePair { key, value })),
{
    log_message(has_screen, MyLogMessage::KeyValuePair { key, value })
}

pub fn log_master_progress(has_screen: bool, progress: Float32, label: String) -> (r: Route)
    ensures
        r == routed(has_screen, (MyLogMessage::MasterProgress { progress, label })),
{
    log_message(has_screen, MyLogMessage::MasterProgress { progress, label })
}

pub fn log_worker_progress(
    has_screen: bool,
    worker_name: String,
    progress: Float32,
    label: String,
) -> (r: Route)
    ensures
        r == routed(has_screen, (MyLogMessage::WorkerProgress { worker_name, progress, label })),
{
    log_message(has_screen, MyLogMessage::WorkerProgress { worker_name, progress, label })
}

/// No message is lost or changed: it goes to the screen if there is one, and is printed if not.
pub proof fn every_message_goes_somewhere(message: MyLogMessage)
    ensures
        routed(true, message) == Route::Screen(message),
        routed(false, message) == Route::Print(message),
{
}

}
