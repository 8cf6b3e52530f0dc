//! What a reader shows of all that a logger was told.
//!
//! A session is the life of a logger, from its start on. What the logger was told stands in the
//! frames that it wrote, once it has flushed.

use crate::float_bits;
use crate::float_bits::Float64;
use crate::log_lines;
use crate::log_lines::{LineView, MAX_LOG_LINES};
use crate::message::TuiMessage;
use crate::progress_tui_client;
use crate::progress_tui_logger;
use crate::progress_tui_logger::{FrameView, ProgressTuiLogger, READER_DISCONNECTED_HINT};
use crate::progress_tui_protocol;
use crate::progress_tui_protocol::{GaugeView, ProgressStats, StatsView, DEFAULT_WINDOW_NAME};
use crate::replay_state;
use crate::text;
use crate::text_map;
use vstd::prelude::*;

verus! {

/// One step in the life of a logger.
pub enum LoggerStep {
    /// The logger is told something.
    Take(TuiMessage),
    /// The logger writes the frame that is due, if anything changed.
    Flush(Float64),
}

/// A step takes a logger from what it held before to what it holds after.
pub open spec fn follows(
    before: ProgressTuiLogger,
    step: LoggerStep,
    after: ProgressTuiLogger,
) -> bool {
    match step {
        LoggerStep::Take(message) => message.in_range() && before.took(message, after),
        LoggerStep::Flush(elapsed_seconds) => {
            &&& after.wf()
            &&& after.snapshot == before.snapshot
            &&& after.pending() == Seq::<LineView>::empty()
            &&& if before.due_frame(elapsed_seconds).empty() {
                after.last_flushed_snapshot == before.last_flushed_snapshot
            } else {
                after.last_flushed_snapshot@ == before.snapshot@
            }
        },
    }
}

/// What a logger held at its start and after each of its steps.
pub open spec fn session(loggers: Seq<ProgressTuiLogger>, steps: Seq<LoggerStep>) -> bool {
    &&& loggers.len() == steps.len() + 1
    &&& loggers[0].fresh()
    &&& forall|i: int|
        0 <= i < steps.len() ==> follows(loggers[i], #[trigger] steps[i], loggers[i + 1])
}

/// A session that ends with a flush, as one does that is shut down.
pub open spec fn closed_session(loggers: Seq<ProgressTuiLogger>, steps: Seq<LoggerStep>) -> bool {
    &&& session(loggers, steps)
    &&& steps.len() > 0
    &&& steps.last() is Flush
}

/// What a logger was told.
pub open spec fn told(steps: Seq<LoggerStep>) -> Seq<TuiMessage>
    decreases steps.len(),
{
    if steps.len() == 0 {
        Seq::empty()
    } else {
        match steps.last() {
            LoggerStep::Take(message) => told(steps.drop_last()).push(message),
            LoggerStep::Flush(_) => told(steps.drop_last()),
        }
    }
}

/// The frames that a logger wrote.
pub open spec fn written(loggers: Seq<ProgressTuiLogger>, steps: Seq<LoggerStep>) -> Seq<FrameView>
    decreases steps.len(),
{
    if steps.len() == 0 {
        Seq::empty()
    } else {
        let before = written(loggers.drop_last(), steps.drop_last());
        match steps.last() {
            LoggerStep::Take(_) => before,
            LoggerStep::Flush(elapsed_seconds) => {
                let frame = loggers[steps.len() - 1].due_frame(elapsed_seconds);
                if frame.empty() {
                    before
                } else {
                    before.push(frame)
                }
            },
        }
    }
}

/// What a reader of all frames shows.
pub open spec fn shown(loggers: Seq<ProgressTuiLogger>, steps: Seq<LoggerStep>) -> StatsView {
    replay_state::replayed(written(loggers, steps)).stats
}

/// What a display holds that was told all messages.
pub open spec fn after_told(steps: Seq<LoggerStep>) -> StatsView {
    progress_tui_protocol::after_messages(
        StatsView::initial(DEFAULT_WINDOW_NAME@, READER_DISCONNECTED_HINT@),
        told(steps),
    )
}

/// The log lines of a series of messages.
pub open spec fn told_lines(messages: Seq<TuiMessage>) -> Seq<LineView>
    decreases messages.len(),
{
    if messages.len() == 0 {
        Seq::empty()
    } else {
        told_lines(messages.drop_last()) + progress_tui_logger::lines_of(messages.last())
    }
}

proof fn lemma_session(loggers: Seq<ProgressTuiLogger>, steps: Seq<LoggerStep>)
    requires
        session(loggers, steps),
    ensures
        ({
            let last = loggers.last();
            &&& last.wf()
            &&& last.snapshot@ == after_told(steps)
            &&& last.snapshot@.in_range()
            &&& last.last_flushed_snapshot@.key_values.dom().subset_of(
                last.snapshot@.key_values.dom(),
            )
            &&& replay_state::mirrors(shown(loggers, steps), last.last_flushed_snapshot@)
            &&& replay_state::all_lines(written(loggers, steps)) + last.pending() == told_lines(
                told(steps),
            )
        }),
        closed_session(loggers, steps) ==> {
            &&& replay_state::mirrors(shown(loggers, steps), after_told(steps))
            &&& replay_state::all_lines(written(loggers, steps)) == told_lines(told(steps))
        },
    decreases steps.len(),
{
    if steps.len() == 0 {
        replay_state::reader_starts_in_step();
        assert(replay_state::all_lines(written(loggers, steps)) + loggers.last().pending()
            =~= told_lines(told(steps)));
    } else {
        let few = loggers.drop_last();
        let fewer = steps.drop_last();
        assert forall|i: int| 0 <= i < fewer.len() implies follows(
            few[i],
            #[trigger] fewer[i],
            few[i + 1],
        ) by {
            assert(fewer[i] == steps[i]);
        }
        lemma_session(few, fewer);
        let n = steps.len() - 1;
        let before = few.last();
        let after = loggers.last();
        assert(before == loggers[n]);
        assert(follows(loggers[n], steps[n], loggers[n + 1]));
        let frames = written(few, fewer);
        match steps.last() {
            LoggerStep::Take(message) => {
                assert(told(steps).drop_last() =~= told(fewer));
                progress_tui_protocol::messages_keep_gauges_in_range(before.snapshot@, message);
                progress_tui_protocol::messages_keep_keys(before.snapshot@, message);
                assert(replay_state::all_lines(frames) + after.pending() =~= told_lines(
                    told(steps),
                ));
            },
            LoggerStep::Flush(elapsed_seconds) => {
                let frame = before.due_frame(elapsed_seconds);
                replay_state::reader_follows_logger(
                    frames,
                    before.last_flushed_snapshot,
                    before.snapshot,
                    before.pending(),
                    elapsed_seconds,
                );
                assert(frames.push(frame).drop_last() =~= frames);
                assert(replay_state::all_lines(written(loggers, steps)) =~= told_lines(
                    told(steps),
                ));
                assert(replay_state::all_lines(written(loggers, steps)) + after.pending()
                    =~= told_lines(told(steps)));
            },
        }
    }
}

/// A reader of all frames of a logger that has flushed shows what the logger was told.
pub proof fn reader_shows_what_was_told(loggers: Seq<ProgressTuiLogger>, steps: Seq<LoggerStep>)
    requires
        closed_session(loggers, steps),
    ensures
        replay_state::mirrors(shown(loggers, steps), after_told(steps)),
{
    lemma_session(loggers, steps);
}

/// A reader of all frames of a logger that has flushed shows the latest of all lines that were
/// logged, in order.
pub proof fn reader_shows_latest_lines(loggers: Seq<ProgressTuiLogger>, steps: Seq<LoggerStep>)
    requires
        closed_session(loggers, steps),
    ensures
        replay_state::replayed(written(loggers, steps)).log_lines == log_lines::latest(
            told_lines(told(steps)),
            MAX_LOG_LINES as nat,
        ),
{
    lemma_session(loggers, steps);
    replay_state::reader_keeps_latest_lines(written(loggers, steps));
}

/// It makes no difference whether a frame is noted as written before or after a message that comes
/// in meanwhile.
pub proof fn noting_a_frame_may_wait(
    before: ProgressTuiLogger,
    message: TuiMessage,
    after: ProgressTuiLogger,
    snapshot: ProgressStats,
)
    requires
        before.took(message, after),
        snapshot.wf(),
    ensures
        (ProgressTuiLogger { last_flushed_snapshot: snapshot, ..before }).took(
            message,
            (ProgressTuiLogger { last_flushed_snapshot: snapshot, ..after }),
        ),
{
}

// ---------------------------------------------------------------------------
// Keys
// ---------------------------------------------------------------------------

/// The message gives a value to the key.
pub open spec fn sets_key(message: TuiMessage, key: Seq<char>) -> bool {
    message is KeyValuePair && message->KeyValuePair_key@ == key
}

proof fn lemma_last_value(stats: StatsView, messages: Seq<TuiMessage>, at: int)
    requires
        0 <= at < messages.len(),
        messages[at] is KeyValuePair,
        forall|i: int|
            at < i < messages.len() ==> !sets_key(
                #[trigger] messages[i],
                messages[at]->KeyValuePair_key@,
            ),
    ensures
        ({
            let values = progress_tui_protocol::after_messages(stats, messages).key_values;
            let key = messages[at]->KeyValuePair_key@;
            values.contains_key(key) && values[key] == messages[at]->KeyValuePair_value@
        }),
    decreases messages.len(),
{
    let init = messages.drop_last();
    if at < init.len() {
        let key = messages[at]->KeyValuePair_key@;
        assert(init[at] == messages[at]);
        assert forall|i: int| at < i < init.len() implies !sets_key(#[trigger] init[i], key) by {
            assert(init[i] == messages[i]);
        }
        lemma_last_value(stats, init, at);
        assert(!sets_key(messages[messages.len() - 1], key));
    }
}

/// A reader shows the value that a key was logged with last, whatever it was logged with before
/// and whatever was logged for other keys since.
pub proof fn last_value_of_a_key_is_shown(
    loggers: Seq<ProgressTuiLogger>,
    steps: Seq<LoggerStep>,
    at: int,
)
    requires
        closed_session(loggers, steps),
        0 <= at < told(steps).len(),
        told(steps)[at] is KeyValuePair,
        forall|i: int|
            at < i < told(steps).len() ==> !sets_key(
                #[trigger] told(steps)[i],
                told(steps)[at]->KeyValuePair_key@,
            ),
    ensures
        ({
            let key = told(steps)[at]->KeyValuePair_key@;
            let values = shown(loggers, steps).key_values;
            values.contains_key(key) && values[key] == told(steps)[at]->KeyValuePair_value@
        }),
{
    lemma_session(loggers, steps);
    lemma_last_value(
        StatsView::initial(DEFAULT_WINDOW_NAME@, READER_DISCONNECTED_HINT@),
        told(steps),
        at,
    );
}

proof fn lemma_only_told_keys(stats: StatsView, messages: Seq<TuiMessage>, key: Seq<char>)
    requires
        !stats.key_values.contains_key(key),
        forall|i: int| 0 <= i < messages.len() ==> !sets_key(#[trigger] messages[i], key),
    ensures
        !progress_tui_protocol::after_messages(stats, messages).key_values.contains_key(key),
    decreases messages.len(),
{
    if messages.len() > 0 {
        let init = messages.drop_last();
        assert forall|i: int| 0 <= i < init.len() implies !sets_key(#[trigger] init[i], key) by {
            assert(init[i] == messages[i]);
        }
        lemma_only_told_keys(stats, init, key);
        assert(!sets_key(messages[messages.len() - 1], key));
    }
}

/// A reader shows no key that was not logged.
pub proof fn only_logged_keys_are_shown(
    loggers: Seq<ProgressTuiLogger>,
    steps: Seq<LoggerStep>,
    key: Seq<char>,
)
    requires
        closed_session(loggers, steps),
        forall|i: int| 0 <= i < told(steps).len() ==> !sets_key(#[trigger] told(steps)[i], key),
    ensures
        !shown(loggers, steps).key_values.contains_key(key),
{
    lemma_session(loggers, steps);
    lemma_only_told_keys(
        StatsView::initial(DEFAULT_WINDOW_NAME@, READER_DISCONNECTED_HINT@),
        told(steps),
        key,
    );
}

/// A frame holds no key twice, no worker twice, and no worker that it also deletes.
pub open spec fn holds_each_once(frame: FrameView) -> bool {
    &&& forall|i: int, j: int|
        0 <= i < j < frame.key_values.len() ==> frame.key_values[i].0 != frame.key_values[j].0
    &&& forall|i: int, j: int|
        0 <= i < j < frame.worker_progress.len() ==> frame.worker_progress[i].0
            != frame.worker_progress[j].0
    &&& forall|i: int, j: int|
        0 <= i < j < frame.deleted_workers.len() ==> frame.deleted_workers[i]
            != frame.deleted_workers[j]
    &&& forall|i: int, j: int|
        0 <= i < frame.worker_progress.len() && 0 <= j < frame.deleted_workers.len()
            ==> frame.worker_progress[i].0 != frame.deleted_workers[j]
}

proof fn lemma_ascending_distinct(keys: Seq<Seq<char>>)
    requires
        text_map::ascending(keys),
    ensures
        forall|i: int, j: int| 0 <= i < j < keys.len() ==> keys[i] != keys[j],
{
    assert forall|i: int, j: int| 0 <= i < j < keys.len() implies keys[i] != keys[j] by {
        assert(text::text_before(keys[i], keys[j]));
        text::text_order_irreflexive(keys[i]);
    }
}

/// The frame that is due from one state to another holds each key and each worker once.
pub proof fn due_frames_hold_each_once(
    now: ProgressStats,
    before: ProgressStats,
    lines: Seq<LineView>,
)
    requires
        now.wf(),
        before.wf(),
    ensures
        holds_each_once(progress_tui_logger::delta(now, before, lines)),
{
    let frame = progress_tui_logger::delta(now, before, lines);
    let text_keep = |k: Seq<char>|
        progress_tui_logger::text_changed(now@.key_values, before@.key_values, k);
    let texts = progress_tui_logger::keys_where(now.key_values.keys(), text_keep);
    progress_tui_logger::lemma_keys_where_ascend(now.key_values.keys(), text_keep);
    lemma_ascending_distinct(texts);
    assert forall|i: int, j: int| 0 <= i < j < frame.key_values.len() implies frame.key_values[i].0
        != frame.key_values[j].0 by {
        assert(texts[i] != texts[j]);
    }
    let gauge_keep = |k: Seq<char>|
        progress_tui_logger::gauge_changed(now@.worker_progress, before@.worker_progress, k);
    let workers = progress_tui_logger::keys_where(now.worker_progress.keys(), gauge_keep);
    progress_tui_logger::lemma_keys_where_ascend(now.worker_progress.keys(), gauge_keep);
    progress_tui_logger::lemma_keys_where(now.worker_progress.keys(), gauge_keep);
    lemma_ascending_distinct(workers);
    assert forall|i: int, j: int|
        0 <= i < j < frame.worker_progress.len() implies frame.worker_progress[i].0
        != frame.worker_progress[j].0 by {
        assert(workers[i] != workers[j]);
    }
    let gone_keep = |k: Seq<char>| !now@.worker_progress.contains_key(k);
    let gone = progress_tui_logger::keys_where(before.worker_progress.keys(), gone_keep);
    progress_tui_logger::lemma_keys_where_ascend(before.worker_progress.keys(), gone_keep);
    progress_tui_logger::lemma_keys_where(before.worker_progress.keys(), gone_keep);
    lemma_ascending_distinct(gone);
    assert forall|i: int, j: int|
        0 <= i < frame.worker_progress.len() && 0 <= j < frame.deleted_workers.len()
        implies frame.worker_progress[i].0 != frame.deleted_workers[j] by {
        assert(frame.worker_progress[i].0 == workers[i]);
        assert(workers.contains(workers[i]));
        assert(gone.contains(gone[j]));
        assert(now.worker_progress.keys().contains(workers[i]));
    }
}

/// No frame that a logger writes holds a key twice, a worker twice, or a worker that it also
/// deletes.
pub proof fn written_frames_hold_each_once(
    loggers: Seq<ProgressTuiLogger>,
    steps: Seq<LoggerStep>,
    at: int,
)
    requires
        session(loggers, steps),
        0 <= at < written(loggers, steps).len(),
    ensures
        holds_each_once(written(loggers, steps)[at]),
    decreases steps.len(),
{
    let few = loggers.drop_last();
    let fewer = steps.drop_last();
    assert forall|i: int| 0 <= i < fewer.len() implies follows(
        few[i],
        #[trigger] fewer[i],
        few[i + 1],
    ) by {
        assert(fewer[i] == steps[i]);
    }
    if at < written(few, fewer).len() {
        written_frames_hold_each_once(few, fewer, at);
    } else {
        let before = few.last();
        lemma_session(few, fewer);
        due_frames_hold_each_once(
            before.snapshot,
            before.last_flushed_snapshot,
            before.pending(),
        );
    }
}

// ---------------------------------------------------------------------------
// Single fields
// ---------------------------------------------------------------------------

/// A reader shows the master progress that was logged last, its progress as well as its label.
pub proof fn last_master_progress_is_shown(
    loggers: Seq<ProgressTuiLogger>,
    steps: Seq<LoggerStep>,
    at: int,
)
    requires
        closed_session(loggers, steps),
        0 <= at < told(steps).len(),
        told(steps)[at] is MasterProgress,
        forall|i: int|
            at < i < told(steps).len() ==> !((#[trigger] told(steps)[i]) is MasterProgress),
    ensures
        ({
            let master = shown(loggers, steps).master_progress;
            &&& master.progress.same_value(told(steps)[at]->MasterProgress_progress)
            &&& master.label == told(steps)[at]->MasterProgress_label@
        }),
{
    lemma_session(loggers, steps);
    progress_tui_protocol::last_master_progress_holds(
        StatsView::initial(DEFAULT_WINDOW_NAME@, READER_DISCONNECTED_HINT@),
        told(steps),
        at,
    );
}

/// A reader shows the state that was logged last.
pub proof fn last_state_is_shown(
    loggers: Seq<ProgressTuiLogger>,
    steps: Seq<LoggerStep>,
    at: int,
)
    requires
        closed_session(loggers, steps),
        0 <= at < told(steps).len(),
        told(steps)[at] is State,
        forall|i: int| at < i < told(steps).len() ==> !((#[trigger] told(steps)[i]) is State),
    ensures
        shown(loggers, steps).state == told(steps)[at]->State_state@,
{
    lemma_session(loggers, steps);
    progress_tui_protocol::last_state_holds(
        StatsView::initial(DEFAULT_WINDOW_NAME@, READER_DISCONNECTED_HINT@),
        told(steps),
        at,
    );
}

/// A reader shows the name of the window that was logged last.
pub proof fn last_window_name_is_shown(
    loggers: Seq<ProgressTuiLogger>,
    steps: Seq<LoggerStep>,
    at: int,
)
    requires
        closed_session(loggers, steps),
        0 <= at < told(steps).len(),
        told(steps)[at] is WindowName,
        forall|i: int| at < i < told(steps).len() ==> !((#[trigger] told(steps)[i]) is WindowName),
    ensures
        shown(loggers, steps).window_name == told(steps)[at]->WindowName_window_name@,
{
    lemma_session(loggers, steps);
    progress_tui_protocol::last_window_name_holds(
        StatsView::initial(DEFAULT_WINDOW_NAME@, READER_DISCONNECTED_HINT@),
        told(steps),
        at,
    );
}

/// A reader shows the exit hint that was logged last, unless that is the one that every logger
/// starts with.
pub proof fn last_exit_hint_is_shown(
    loggers: Seq<ProgressTuiLogger>,
    steps: Seq<LoggerStep>,
    at: int,
)
    requires
        closed_session(loggers, steps),
        0 <= at < told(steps).len(),
        told(steps)[at] is ExitHint,
        forall|i: int| at < i < told(steps).len() ==> !((#[trigger] told(steps)[i]) is ExitHint),
        told(steps)[at]->ExitHint_0@ != "Reader disconnected. Ctrl+C to exit."@,
    ensures
        shown(loggers, steps).exit_hint == told(steps)[at]->ExitHint_0@,
{
    lemma_session(loggers, steps);
    progress_tui_protocol::last_exit_hint_holds(
        StatsView::initial(DEFAULT_WINDOW_NAME@, READER_DISCONNECTED_HINT@),
        told(steps),
        at,
    );
}

/// What was never logged is shown as it is before any message: no state, the usual name of the
/// window, a master bar at zero, and the reader's own hint or the logger's.
pub proof fn unlogged_fields_are_shown_as_usual(
    loggers: Seq<ProgressTuiLogger>,
    steps: Seq<LoggerStep>,
)
    requires
        closed_session(loggers, steps),
    ensures
        (forall|i: int| 0 <= i < told(steps).len() ==> !((#[trigger] told(steps)[i]) is State))
            ==> shown(loggers, steps).state.len() == 0,
        (forall|i: int|
            0 <= i < told(steps).len() ==> !((#[trigger] told(steps)[i]) is WindowName))
            ==> shown(loggers, steps).window_name == "Progress Screen"@,
        (forall|i: int|
            0 <= i < told(steps).len() ==> !((#[trigger] told(steps)[i]) is MasterProgress)) ==> {
            &&& shown(loggers, steps).master_progress.label == "0%"@
            &&& shown(loggers, steps).master_progress.progress.same_value(
                float_bits::Float32 { bits: 0 },
            )
        },
{
    lemma_session(loggers, steps);
    progress_tui_protocol::untold_fields_stay(
        StatsView::initial(DEFAULT_WINDOW_NAME@, READER_DISCONNECTED_HINT@),
        told(steps),
    );
}

/// The log lines of a session are those of its line messages, each with its text and severity, in
/// the order in which they were logged.
pub proof fn every_line_is_told_once(messages: Seq<TuiMessage>, message: TuiMessage)
    ensures
        message is Line ==> told_lines(messages.push(message)) == told_lines(messages).push(
            (LineView {
                message: message->Line_message@,
                severity: message->Line_severity,
            }),
        ),
        !(message is Line) ==> told_lines(messages.push(message)) == told_lines(messages),
        told_lines(Seq::<TuiMessage>::empty()).len() == 0,
{
    let more = messages.push(message);
    assert(more.drop_last() =~= messages);
    assert(more.last() == message);
    if message is Line {
        assert(told_lines(more) =~= told_lines(messages).push(
            (LineView {
                message: message->Line_message@,
                severity: message->Line_severity,
            }),
        ));
    } else {
        assert(told_lines(more) =~= told_lines(messages));
    }
}

/// Of all lines that were logged a reader shows the last hundred, each where it stands from the
/// end.
pub proof fn reader_shows_the_last_hundred_lines(
    loggers: Seq<ProgressTuiLogger>,
    steps: Seq<LoggerStep>,
    from_end: int,
)
    requires
        closed_session(loggers, steps),
    ensures
        ({
            let lines = replay_state::replayed(written(loggers, steps)).log_lines;
            let all = told_lines(told(steps));
            &&& lines.len() == (if all.len() < 100 {
                all.len() as int
            } else {
                100
            })
            &&& 0 <= from_end < lines.len() ==> lines[lines.len() - 1 - from_end] == all[all.len()
                - 1 - from_end]
        }),
{
    reader_shows_latest_lines(loggers, steps);
}

// ---------------------------------------------------------------------------
// Workers
// ---------------------------------------------------------------------------

/// The message tells how far the worker has come.
pub open spec fn reports(message: TuiMessage, name: Seq<char>) -> bool {
    message is WorkerProgress && message->WorkerProgress_worker_name@ == name
}

/// The message deletes the worker.
pub open spec fn deletes(message: TuiMessage, name: Seq<char>) -> bool {
    message is DeleteWorkerBar && message->DeleteWorkerBar_worker_name@ == name
}

proof fn lemma_gone(stats: StatsView, messages: Seq<TuiMessage>, name: Seq<char>, from: int)
    requires
        0 <= from <= messages.len(),
        from == 0 ==> !stats.worker_progress.contains_key(name),
        from > 0 ==> deletes(messages[from - 1], name),
        forall|i: int| from <= i < messages.len() ==> !reports(#[trigger] messages[i], name),
    ensures
        !progress_tui_protocol::after_messages(stats, messages).worker_progress.contains_key(name),
    decreases messages.len(),
{
    if messages.len() > 0 {
        let init = messages.drop_last();
        if from < messages.len() {
            if from > 0 {
                assert(init[from - 1] == messages[from - 1]);
            }
            assert forall|i: int| from <= i < init.len() implies !reports(
                #[trigger] init[i],
                name,
            ) by {
                assert(init[i] == messages[i]);
            }
            lemma_gone(stats, init, name, from);
            assert(!reports(messages[messages.len() - 1], name));
        }
    }
}

/// A worker that was deleted, and of which nothing was reported since, is not shown.
pub proof fn deleted_worker_is_gone(
    loggers: Seq<ProgressTuiLogger>,
    steps: Seq<LoggerStep>,
    name: Seq<char>,
    at: int,
)
    requires
        closed_session(loggers, steps),
        0 <= at < told(steps).len(),
        deletes(told(steps)[at], name),
        forall|i: int|
            at < i < told(steps).len() ==> !reports(#[trigger] told(steps)[i], name),
    ensures
        !shown(loggers, steps).worker_progress.contains_key(name),
{
    lemma_session(loggers, steps);
    lemma_gone(
        StatsView::initial(DEFAULT_WINDOW_NAME@, READER_DISCONNECTED_HINT@),
        told(steps),
        name,
        at + 1,
    );
    assert(!after_told(steps).worker_progress.dom().contains(name));
}

proof fn lemma_last_report(stats: StatsView, messages: Seq<TuiMessage>, name: Seq<char>, at: int)
    requires
        0 <= at < messages.len(),
        reports(messages[at], name),
        forall|i: int|
            at < i < messages.len() ==> !reports(#[trigger] messages[i], name) && !deletes(
                messages[i],
                name,
            ),
    ensures
        ({
            let workers = progress_tui_protocol::after_messages(stats, messages).worker_progress;
            &&& workers.contains_key(name)
            &&& workers[name].progress == messages[at]->WorkerProgress_progress
            &&& workers[name].label == messages[at]->WorkerProgress_label@
        }),
    decreases messages.len(),
{
    let init = messages.drop_last();
    if at < init.len() {
        assert(init[at] == messages[at]);
        assert forall|i: int| at < i < init.len() implies !reports(#[trigger] init[i], name)
            && !deletes(init[i], name) by {
            assert(init[i] == messages[i]);
        }
        lemma_last_report(stats, init, name, at);
        assert(!reports(messages[messages.len() - 1], name));
    }
}

/// A worker that was not deleted since its last report is shown as it was reported last, whichever
/// other workers were deleted.
pub proof fn last_report_of_a_worker_is_shown(
    loggers: Seq<ProgressTuiLogger>,
    steps: Seq<LoggerStep>,
    name: Seq<char>,
    at: int,
)
    requires
        closed_session(loggers, steps),
        0 <= at < told(steps).len(),
        reports(told(steps)[at], name),
        forall|i: int|
            at < i < told(steps).len() ==> !reports(#[trigger] told(steps)[i], name) && !deletes(
                told(steps)[i],
                name,
            ),
    ensures
        ({
            let workers = shown(loggers, steps).worker_progress;
            &&& workers.contains_key(name)
            &&& workers[name].progress.same_value(told(steps)[at]->WorkerProgress_progress)
            &&& workers[name].label == told(steps)[at]->WorkerProgress_label@
        }),
{
    lemma_session(loggers, steps);
    lemma_last_report(
        StatsView::initial(DEFAULT_WINDOW_NAME@, READER_DISCONNECTED_HINT@),
        told(steps),
        name,
        at,
    );
    assert(after_told(steps).worker_progress.dom().contains(name));
}

/// Two displays differ in one worker at most.
pub open spec fn alike_but(a: StatsView, b: StatsView, name: Seq<char>) -> bool {
    &&& a.state == b.state
    &&& a.window_name == b.window_name
    &&& a.exit_hint == b.exit_hint
    &&& a.key_values == b.key_values
    &&& a.worker_progress.remove(name) == b.worker_progress.remove(name)
    &&& a.master_progress == b.master_progress
}

proof fn lemma_stays_alike(a: StatsView, b: StatsView, messages: Seq<TuiMessage>, name: Seq<char>)
    requires
        alike_but(a, b, name),
    ensures
        alike_but(
            progress_tui_protocol::after_messages(a, messages),
            progress_tui_protocol::after_messages(b, messages),
            name,
        ),
    decreases messages.len(),
{
    if messages.len() > 0 {
        let init = messages.drop_last();
        lemma_stays_alike(a, b, init, name);
        let x = progress_tui_protocol::after_messages(a, init);
        let y = progress_tui_protocol::after_messages(b, init);
        let p = x.applied(messages.last()).worker_progress;
        let q = y.applied(messages.last()).worker_progress;
        let r = x.worker_progress.remove(name);
        let s = y.worker_progress.remove(name);
        assert forall|k: Seq<char>| #[trigger]
            p.remove(name).contains_key(k) == q.remove(name).contains_key(k) by {
            assert(r.contains_key(k) == s.contains_key(k));
        }
        assert forall|k: Seq<char>| #[trigger] p.remove(name).contains_key(k) implies p.remove(
            name,
        )[k] == q.remove(name)[k] by {
            assert(r.contains_key(k) == s.contains_key(k));
            assert(r[k] == s[k]);
        }
        assert(p.remove(name) =~= q.remove(name));
    }
}

proof fn lemma_deletion(stats: StatsView, messages: Seq<TuiMessage>, deletion: TuiMessage, at: int)
    requires
        0 <= at <= messages.len(),
        deletion is DeleteWorkerBar,
    ensures
        alike_but(
            progress_tui_protocol::after_messages(stats, messages.insert(at, deletion)),
            progress_tui_protocol::after_messages(stats, messages),
            deletion->DeleteWorkerBar_worker_name@,
        ),
        !progress_tui_protocol::after_messages(
            stats,
            messages.take(at),
        ).worker_progress.contains_key(deletion->DeleteWorkerBar_worker_name@)
            ==> progress_tui_protocol::after_messages(stats, messages.insert(at, deletion))
            == progress_tui_protocol::after_messages(stats, messages),
{
    let name = deletion->DeleteWorkerBar_worker_name@;
    let more = messages.insert(at, deletion);
    let held = progress_tui_protocol::after_messages(stats, messages.take(at));
    let less = held.applied(deletion);
    progress_tui_client::snapshot_and_updates_suffice(stats, messages, at);
    progress_tui_client::snapshot_and_updates_suffice(stats, more, at + 1);
    assert(more.take(at + 1).drop_last() =~= messages.take(at));
    assert(more.take(at + 1).last() == deletion);
    assert(more.skip(at + 1) =~= messages.skip(at));
    assert(less.worker_progress.remove(name) =~= held.worker_progress.remove(name));
    lemma_stays_alike(less, held, messages.skip(at), name);
    if !held.worker_progress.contains_key(name) {
        assert(less.worker_progress =~= held.worker_progress);
        assert(less =~= held);
    }
}

proof fn lemma_same_shown(a: GaugeView, b: GaugeView, logged: GaugeView)
    requires
        a.same(logged),
        b.same(logged),
    ensures
        a.same(b),
{
    float_bits::same_value_is_transitive(b.progress, logged.progress, logged.progress);
    float_bits::same_value_is_transitive(a.progress, logged.progress, b.progress);
}

/// Deleting a worker changes nothing that a reader shows of the state, the window's name, the
/// keys, the master's progress and the other workers. Where the worker was not there, nothing that
/// a reader shows of the workers changes either.
pub proof fn deletion_touches_only_its_worker(
    loggers: Seq<ProgressTuiLogger>,
    steps: Seq<LoggerStep>,
    others: Seq<ProgressTuiLogger>,
    without: Seq<LoggerStep>,
    deletion: TuiMessage,
    at: int,
)
    requires
        closed_session(loggers, steps),
        closed_session(others, without),
        deletion is DeleteWorkerBar,
        0 <= at <= told(without).len(),
        told(steps) == told(without).insert(at, deletion),
    ensures
        ({
            let name = deletion->DeleteWorkerBar_worker_name@;
            let a = shown(loggers, steps);
            let b = shown(others, without);
            &&& a.state == b.state
            &&& a.window_name == b.window_name
            &&& a.key_values == b.key_values
            &&& a.master_progress.same(b.master_progress)
            &&& replay_state::same_gauges(
                a.worker_progress.remove(name),
                b.worker_progress.remove(name),
            )
            &&& (forall|i: int| 0 <= i < at ==> !reports(#[trigger] told(without)[i], name))
                ==> replay_state::same_gauges(a.worker_progress, b.worker_progress)
        }),
{
    let name = deletion->DeleteWorkerBar_worker_name@;
    let initial = StatsView::initial(DEFAULT_WINDOW_NAME@, READER_DISCONNECTED_HINT@);
    let a = shown(loggers, steps);
    let b = shown(others, without);
    let x = after_told(steps);
    let y = after_told(without);
    lemma_session(loggers, steps);
    lemma_session(others, without);
    lemma_deletion(initial, told(without), deletion, at);
    lemma_same_shown(a.master_progress, b.master_progress, x.master_progress);
    let p = a.worker_progress.remove(name);
    let q = b.worker_progress.remove(name);
    assert forall|k: Seq<char>| p.contains_key(k) == q.contains_key(k) by {
        assert(x.worker_progress.remove(name).contains_key(k) == y.worker_progress.remove(
            name,
        ).contains_key(k));
        assert(a.worker_progress.dom().contains(k) == x.worker_progress.dom().contains(k));
        assert(b.worker_progress.dom().contains(k) == y.worker_progress.dom().contains(k));
    }
    assert(p.dom() =~= q.dom());
    assert forall|k: Seq<char>| #[trigger] p.contains_key(k) implies p[k].same(q[k]) by {
        assert(q.contains_key(k));
        assert(a.worker_progress.contains_key(k));
        assert(b.worker_progress.contains_key(k));
        assert(x.worker_progress.remove(name)[k] == y.worker_progress.remove(name)[k]);
        lemma_same_shown(a.worker_progress[k], b.worker_progress[k], x.worker_progress[k]);
    }
    if forall|i: int| 0 <= i < at ==> !reports(#[trigger] told(without)[i], name) {
        let early = told(without).take(at);
        assert forall|i: int| 0 <= i < early.len() implies !reports(#[trigger] early[i], name) by {
            assert(early[i] == told(without)[i]);
        }
        lemma_gone(initial, early, name, 0);
        assert(x == y);
        assert forall|k: Seq<char>| #[trigger]
            a.worker_progress.contains_key(k) implies a.worker_progress[k].same(
            b.worker_progress[k],
        ) by {
            assert(x.worker_progress.dom().contains(k));
            assert(b.worker_progress.contains_key(k));
            lemma_same_shown(a.worker_progress[k], b.worker_progress[k], x.worker_progress[k]);
        }
    }
}

}
