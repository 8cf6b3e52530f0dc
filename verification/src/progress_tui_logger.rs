//! A logger that writes what changes on a progress display to a log of frames.

use crate::float_bits::Float64;
use crate::log_lines;
use crate::log_lines::LineView;
pub use crate::log_lines::ProgressLogLine;
use crate::message::{Severity, TuiMessage};
pub use crate::progress_tui_protocol::ProgressGaugeState;
use crate::progress_tui_protocol::{GaugeView, ProgressStats, StatsView, DEFAULT_WINDOW_NAME};
use crate::float_bits::Float32;
use crate::text;
use crate::text_map;
use crate::text_map::{Duplicate, TextMap};
use vstd::prelude::*;

verus! {

/// How often frames are written, in milliseconds.
pub const FRAME_INTERVAL_MS: u64 = 500;

/// The exit hint of a logger that was given none.
pub const READER_DISCONNECTED_HINT: &'static str = "Reader disconnected. Ctrl+C to exit.";

/// What changed on a progress display since the frame before.
#[derive(Debug)]
pub struct ProgressLogFrame {
    pub elapsed_seconds: Float64,
    pub state: Option<String>,
    pub window_name: Option<String>,
    pub exit_hint: Option<String>,
    pub key_values: Vec<(String, String)>,
    pub worker_progress: Vec<(String, ProgressGaugeState)>,
    pub deleted_workers: Vec<String>,
    pub master_progress: Option<ProgressGaugeState>,
    pub log_lines: Vec<ProgressLogLine>,
}

/// The contents of a frame.
#[verifier::ext_equal]
pub struct FrameView {
    pub elapsed_seconds: Float64,
    pub state: Option<Seq<char>>,
    pub window_name: Option<Seq<char>>,
    pub exit_hint: Option<Seq<char>>,
    pub key_values: Seq<(Seq<char>, Seq<char>)>,
    pub worker_progress: Seq<(Seq<char>, GaugeView)>,
    pub deleted_workers: Seq<Seq<char>>,
    pub master_progress: Option<GaugeView>,
    pub log_lines: Seq<LineView>,
}

/// The contents of an optional value.
pub open spec fn option_view<T: View>(o: Option<T>) -> Option<T::V> {
    match o {
        Some(x) => Some(x@),
        None => None,
    }
}

/// The contents of a list of named values.
pub open spec fn pair_views<T: View>(v: Seq<(String, T)>) -> Seq<(Seq<char>, T::V)> {
    v.map_values(|p: (String, T)| (p.0@, p.1@))
}

impl View for ProgressLogFrame {
    type V = FrameView;

    open spec fn view(&self) -> FrameView {
        FrameView {
            elapsed_seconds: self.elapsed_seconds,
            state: option_view(self.state),
            window_name: option_view(self.window_name),
            exit_hint: option_view(self.exit_hint),
            key_values: pair_views(self.key_values@),
            worker_progress: pair_views(self.worker_progress@),
            deleted_workers: text::texts(self.deleted_workers@),
            master_progress: option_view(self.master_progress),
            log_lines: log_lines::line_views(self.log_lines@),
        }
    }
}

impl FrameView {
    /// The frame says nothing but the time.
    pub open spec fn empty(self) -> bool {
        &&& self.state is None
        &&& self.window_name is None
        &&& self.exit_hint is None
        &&& self.key_values.len() == 0
        &&& self.worker_progress.len() == 0
        &&& self.deleted_workers.len() == 0
        &&& self.master_progress is None
        &&& self.log_lines.len() == 0
    }
}

impl ProgressLogFrame {
    /// Whether the frame says nothing but the time.
    pub fn is_empty(&self) -> (r: bool)
        ensures
            r == self@.empty(),
    {
        self.state.is_none() && self.window_name.is_none() && self.exit_hint.is_none()
            && self.key_values.len() == 0 && self.worker_progress.len() == 0
            && self.deleted_workers.len() == 0 && self.master_progress.is_none()
            && self.log_lines.len() == 0
    }
}

/// The keys that `keep` holds of, in order.
pub open spec fn keys_where(keys: Seq<Seq<char>>, keep: spec_fn(Seq<char>) -> bool) -> Seq<
    Seq<char>,
>
    decreases keys.len(),
{
    if keys.len() == 0 {
        Seq::empty()
    } else if keep(keys.last()) {
        keys_where(keys.drop_last(), keep).push(keys.last())
    } else {
        keys_where(keys.drop_last(), keep)
    }
}

/// The keys that are kept are those that `keep` holds of.
pub proof fn lemma_keys_where(keys: Seq<Seq<char>>, keep: spec_fn(Seq<char>) -> bool)
    ensures
        forall|k: Seq<char>| #[trigger]
            keys_where(keys, keep).contains(k) == (keys.contains(k)
                && keep(k)),
    decreases keys.len(),
{
    let kept = keys_where(keys, keep);
    if keys.len() > 0 {
        let init = keys.drop_last();
        let less = keys_where(init, keep);
        lemma_keys_where(init, keep);
        assert forall|k: Seq<char>| #[trigger] kept.contains(k) == (keys.contains(k) && keep(
            k,
        )) by {
            if kept.contains(k) {
                let i = choose|i: int| 0 <= i < kept.len() && kept[i] == k;
                if i < less.len() {
                    assert(less[i] == k);
                    assert(less.contains(k));
                    let j = choose|j: int| 0 <= j < init.len() && init[j] == k;
                    assert(keys[j] == k);
                } else {
                    assert(keys[keys.len() - 1] == k);
                }
            }
            if keys.contains(k) && keep(k) {
                let j = choose|j: int| 0 <= j < keys.len() && keys[j] == k;
                if j < init.len() {
                    assert(init[j] == k);
                    assert(less.contains(k));
                    let i = choose|i: int| 0 <= i < less.len() && less[i] == k;
                    assert(kept[i] == k);
                } else {
                    assert(kept[kept.len() - 1] == k);
                }
            }
        }
    }
}

/// Keys in ascending order stay so where some are left out.
pub proof fn lemma_keys_where_ascend(keys: Seq<Seq<char>>, keep: spec_fn(Seq<char>) -> bool)
    requires
        text_map::ascending(keys),
    ensures
        text_map::ascending(keys_where(keys, keep)),
    decreases keys.len(),
{
    if keys.len() > 0 {
        let init = keys.drop_last();
        let less = keys_where(init, keep);
        let kept = keys_where(keys, keep);
        lemma_keys_where_ascend(init, keep);
        lemma_keys_where(init, keep);
        assert forall|i: int, j: int| 0 <= i < j < kept.len() implies text::text_before(
            kept[i],
            kept[j],
        ) by {
            if j == less.len() {
                assert(less.contains(less[i]));
                let m = choose|m: int| 0 <= m < init.len() && init[m] == less[i];
                assert(text::text_before(keys[m], keys[keys.len() - 1]));
            } else {
                assert(text::text_before(less[i], less[j]));
            }
        }
    }
}

/// The keys with their values.
pub open spec fn with_values<W>(keys: Seq<Seq<char>>, values: Map<Seq<char>, W>) -> Seq<
    (Seq<char>, W),
> {
    keys.map_values(|k: Seq<char>| (k, values[k]))
}

/// The text, if it is not the one before.
pub open spec fn changed_text(now: Seq<char>, before: Seq<char>) -> Option<Seq<char>> {
    if now != before {
        Some(now)
    } else {
        None
    }
}

/// A key whose text is new or differs from the one before.
pub open spec fn text_changed(
    now: Map<Seq<char>, Seq<char>>,
    before: Map<Seq<char>, Seq<char>>,
    key: Seq<char>,
) -> bool {
    !(before.contains_key(key) && before[key] == now[key])
}

/// A worker whose gauge is new or does not compare as equal to the one before.
pub open spec fn gauge_changed(
    now: Map<Seq<char>, GaugeView>,
    before: Map<Seq<char>, GaugeView>,
    name: Seq<char>,
) -> bool {
    !(before.contains_key(name) && before[name].same(now[name]))
}

/// What changed from `before` to `now`, with the log lines in between.
pub open spec fn delta(
    now: ProgressStats,
    before: ProgressStats,
    lines: Seq<LineView>,
) -> FrameView {
    FrameView {
        elapsed_seconds: Float64 { bits: 0 },
        state: changed_text(now@.state, before@.state),
        window_name: changed_text(now@.window_name, before@.window_name),
        exit_hint: changed_text(now@.exit_hint, before@.exit_hint),
        key_values: with_values(
            keys_where(
                now.key_values.keys(),
                |k: Seq<char>| text_changed(now@.key_values, before@.key_values, k),
            ),
            now@.key_values,
        ),
        worker_progress: with_values(
            keys_where(
                now.worker_progress.keys(),
                |k: Seq<char>| gauge_changed(now@.worker_progress, before@.worker_progress, k),
            ),
            now@.worker_progress,
        ),
        deleted_workers: keys_where(
            before.worker_progress.keys(),
            |k: Seq<char>| !now@.worker_progress.contains_key(k),
        ),
        master_progress: if now@.master_progress.same(before@.master_progress) {
            None
        } else {
            Some(now@.master_progress)
        },
        log_lines: lines,
    }
}

fn changed(now: &String, before: &String) -> (r: Option<String>)
    ensures
        option_view(r) == changed_text(now@, before@),
{
    if text::same_text(now.as_str(), before.as_str()) {
        None
    } else {
        Some(now.clone())
    }
}

impl ProgressStats {
    /// What changed since `previous`, as a frame without a time.
    pub fn delta_from(&self, previous: &ProgressStats, log_lines: Vec<ProgressLogLine>) -> (frame:
        ProgressLogFrame)
        requires
            self.wf(),
            previous.wf(),
        ensures
            frame@ == delta(*self, *previous, log_lines::line_views(log_lines@)),
    {
        let key_values = changed_key_values(&self.key_values, &previous.key_values);
        let worker_progress = changed_workers(&self.worker_progress, &previous.worker_progress);
        let deleted_workers = gone_workers(&self.worker_progress, &previous.worker_progress);
        let master_progress = if self.master_progress.equals(&previous.master_progress) {
            None
        } else {
            Some(self.master_progress.duplicate())
        };
        let frame = ProgressLogFrame {
            elapsed_seconds: Float64::zero(),
            state: changed(&self.state, &previous.state),
            window_name: changed(&self.window_name, &previous.window_name),
            exit_hint: changed(&self.exit_hint, &previous.exit_hint),
            key_values,
            worker_progress,
            deleted_workers,
            master_progress,
            log_lines,
        };
        proof {
            lemma_same_is_symmetric(self@.master_progress, previous@.master_progress);
            assert(frame@ =~= delta(*self, *previous, log_lines::line_views(log_lines@)));
        }
        frame
    }
}

proof fn lemma_same_is_symmetric(a: GaugeView, b: GaugeView)
    ensures
        a.same(b) == b.same(a),
{
}

fn changed_key_values(now: &TextMap<String>, before: &TextMap<String>) -> (out: Vec<
    (String, String),
>)
    requires
        now.wf(),
        before.wf(),
    ensures
        pair_views(out@) == with_values(
            keys_where(now.keys(), |k: Seq<char>| text_changed(now@, before@, k)),
            now@,
        ),
{
    let ghost keep = |k: Seq<char>| text_changed(now@, before@, k);
    let mut out: Vec<(String, String)> = Vec::new();
    let mut i: usize = 0;
    assert(pair_views(out@) =~= with_values(keys_where(now.keys().take(0), keep), now@));
    while i < now.len()
        invariant
            i <= now.keys().len(),
            now.wf(),
            before.wf(),
            keep == |k: Seq<char>| text_changed(now@, before@, k),
            pair_views(out@) == with_values(keys_where(now.keys().take(i as int), keep), now@),
        decreases now.keys().len() - i,
    {
        let key = now.key_at(i);
        let value = now.value_at(i);
        let same = match before.get(key.as_str()) {
            Some(old_value) => text::same_text(old_value.as_str(), value.as_str()),
            None => false,
        };
        let ghost so_far = now.keys().take(i as int);
        assert(now.keys().take(i + 1).drop_last() =~= so_far);
        if !same {
            let ghost pairs = out@;
            out.push((key.clone(), value.clone()));
            assert(pair_views(out@) =~= pair_views(pairs).push((key@, value@)));
            assert(with_values(keys_where(so_far, keep).push(key@), now@) =~= with_values(
                keys_where(so_far, keep),
                now@,
            ).push((key@, now@[key@])));
        }
        i = i + 1;
    }
    assert(now.keys().take(now.keys().len() as int) =~= now.keys());
    out
}

fn changed_workers(now: &TextMap<ProgressGaugeState>, before: &TextMap<ProgressGaugeState>) -> (out:
    Vec<(String, ProgressGaugeState)>)
    requires
        now.wf(),
        before.wf(),
    ensures
        pair_views(out@) == with_values(
            keys_where(now.keys(), |k: Seq<char>| gauge_changed(now@, before@, k)),
            now@,
        ),
{
    let ghost keep = |k: Seq<char>| gauge_changed(now@, before@, k);
    let mut out: Vec<(String, ProgressGaugeState)> = Vec::new();
    let mut i: usize = 0;
    assert(pair_views(out@) =~= with_values(keys_where(now.keys().take(0), keep), now@));
    while i < now.len()
        invariant
            i <= now.keys().len(),
            now.wf(),
            before.wf(),
            keep == |k: Seq<char>| gauge_changed(now@, before@, k),
            pair_views(out@) == with_values(keys_where(now.keys().take(i as int), keep), now@),
        decreases now.keys().len() - i,
    {
        let key = now.key_at(i);
        let value = now.value_at(i);
        let same = match before.get(key.as_str()) {
            Some(old_value) => old_value.equals(value),
            None => false,
        };
        let ghost so_far = now.keys().take(i as int);
        assert(now.keys().take(i + 1).drop_last() =~= so_far);
        if !same {
            let ghost pairs = out@;
            out.push((key.clone(), value.duplicate()));
            assert(pair_views(out@) =~= pair_views(pairs).push((key@, value@)));
            assert(with_values(keys_where(so_far, keep).push(key@), now@) =~= with_values(
                keys_where(so_far, keep),
                now@,
            ).push((key@, now@[key@])));
        }
        i = i + 1;
    }
    assert(now.keys().take(now.keys().len() as int) =~= now.keys());
    out
}

fn gone_workers(now: &TextMap<ProgressGaugeState>, before: &TextMap<ProgressGaugeState>) -> (out:
    Vec<String>)
    requires
        now.wf(),
        before.wf(),
    ensures
        text::texts(out@) == keys_where(before.keys(), |k: Seq<char>| !now@.contains_key(k)),
{
    let ghost keep = |k: Seq<char>| !now@.contains_key(k);
    let mut out: Vec<String> = Vec::new();
    let mut i: usize = 0;
    assert(text::texts(out@) =~= keys_where(before.keys().take(0), keep));
    while i < before.len()
        invariant
            i <= before.keys().len(),
            now.wf(),
            before.wf(),
            keep == |k: Seq<char>| !now@.contains_key(k),
            text::texts(out@) == keys_where(before.keys().take(i as int), keep),
        decreases before.keys().len() - i,
    {
        let key = before.key_at(i);
        let ghost so_far = before.keys().take(i as int);
        assert(before.keys().take(i + 1).drop_last() =~= so_far);
        if !now.contains_key(key.as_str()) {
            let ghost names = out@;
            out.push(key.clone());
            assert(text::texts(out@) =~= text::texts(names).push(key@));
        }
        i = i + 1;
    }
    assert(before.keys().take(before.keys().len() as int) =~= before.keys());
    out
}

// ---------------------------------------------------------------------------
// The logger
// ---------------------------------------------------------------------------

/// What a running logger holds.
#[derive(Debug)]
pub struct ProgressTuiLogger {
    pub snapshot: ProgressStats,
    pub pending_log_lines: Vec<ProgressLogLine>,
    pub last_flushed_snapshot: ProgressStats,
}

/// A frame to write, and the snapshot that it leads to.
#[derive(Debug)]
pub struct PendingFrame {
    pub frame: ProgressLogFrame,
    pub snapshot: ProgressStats,
}

/// The lines that a message adds to the log.
pub open spec fn lines_of(message: TuiMessage) -> Seq<LineView> {
    match message {
        TuiMessage::Line { message, severity } => seq![LineView { message: message@, severity }],
        _ => Seq::empty(),
    }
}

impl ProgressTuiLogger {
    pub open spec fn wf(self) -> bool {
        &&& self.snapshot.wf()
        &&& self.last_flushed_snapshot.wf()
    }

    pub open spec fn pending(self) -> Seq<LineView> {
        log_lines::line_views(self.pending_log_lines@)
    }

    /// The logger holds what one holds before its first message.
    pub open spec fn fresh(self) -> bool {
        &&& self.wf()
        &&& self.snapshot@ == StatsView::initial(DEFAULT_WINDOW_NAME@, READER_DISCONNECTED_HINT@)
        &&& self.last_flushed_snapshot@ == self.snapshot@
        &&& self.pending() == Seq::<LineView>::empty()
    }

    /// What the logger holds after a message.
    pub open spec fn took(self, message: TuiMessage, after: ProgressTuiLogger) -> bool {
        &&& after.wf()
        &&& after.snapshot@ == self.snapshot@.applied(message)
        &&& after.pending() == self.pending() + lines_of(message)
        &&& after.last_flushed_snapshot == self.last_flushed_snapshot
    }

    /// What is to be written: all that changed since the last frame.
    pub open spec fn due_frame(self, elapsed_seconds: Float64) -> FrameView {
        FrameView {
            elapsed_seconds,
            ..delta(self.snapshot, self.last_flushed_snapshot, self.pending())
        }
    }

    /// A logger before its first message.
    pub fn new() -> (r: ProgressTuiLogger)
        ensures
            r.fresh(),
    {
        let r = ProgressTuiLogger {
            snapshot: ProgressStats::initial(DEFAULT_WINDOW_NAME, READER_DISCONNECTED_HINT),
            pending_log_lines: Vec::new(),
            last_flushed_snapshot: ProgressStats::initial(
                DEFAULT_WINDOW_NAME,
                READER_DISCONNECTED_HINT,
            ),
        };
        assert(r.pending() =~= Seq::<LineView>::empty());
        r
    }

    /// Takes a message into the snapshot, and its line into the pending lines.
    pub fn take_message(&mut self, message: &TuiMessage)
        requires
            old(self).wf(),
            message.in_range(),
        ensures
            old(self).took(*message, *final(self)),
    {
        if let TuiMessage::Line { message: line, severity } = message {
            self.pending_log_lines.push(
                ProgressLogLine { message: line.clone(), severity: *severity },
            );
        }
        self.snapshot.apply_message(message);
        assert(self.pending() =~= old(self).pending() + lines_of(*message));
    }

    /// The frame that is due, if anything changed. The pending lines go into it.
    pub fn flush_frame_if_needed(&mut self, elapsed_seconds: Float64) -> (r: Option<PendingFrame>)
        requires
            old(self).wf(),
        ensures
            final(self).wf(),
            final(self).snapshot == old(self).snapshot,
            final(self).last_flushed_snapshot == old(self).last_flushed_snapshot,
            final(self).pending() == Seq::<LineView>::empty(),
            match r {
                Some(p) => {
                    &&& !old(self).due_frame(elapsed_seconds).empty()
                    &&& p.frame@ == old(self).due_frame(elapsed_seconds)
                    &&& p.snapshot.wf()
                    &&& p.snapshot@ == old(self).snapshot@
                },
                None => old(self).due_frame(elapsed_seconds).empty(),
            },
    {
        let snapshot = self.snapshot.duplicate();
        let mut log_lines: Vec<ProgressLogLine> = Vec::new();
        std::mem::swap(&mut log_lines, &mut self.pending_log_lines);
        let mut frame = self.snapshot.delta_from(&self.last_flushed_snapshot, log_lines);
        frame.elapsed_seconds = elapsed_seconds;
        assert(self.pending() =~= Seq::<LineView>::empty());
        if frame.is_empty() {
            return None;
        }
        Some(PendingFrame { frame, snapshot })
    }

    /// Takes note that a frame was written.
    pub fn frame_written(&mut self, snapshot: ProgressStats)
        requires
            old(self).wf(),
            snapshot.wf(),
        ensures
            final(self).wf(),
            final(self).last_flushed_snapshot == snapshot,
            final(self).snapshot == old(self).snapshot,
            final(self).pending_log_lines == old(self).pending_log_lines,
    {
        self.last_flushed_snapshot = snapshot;
    }
}

/// How a logger, running or not, takes a message: without a running logger the message comes
/// back, to be printed.
pub open spec fn logged(
    before: Option<ProgressTuiLogger>,
    after: Option<ProgressTuiLogger>,
    message: TuiMessage,
    printed: Option<TuiMessage>,
) -> bool {
    match before {
        None => after is None && printed == Some(message),
        Some(b) => {
            &&& printed is None
            &&& after is Some
            &&& b.took(message, after->0)
        },
    }
}

/// A logger that is not running or is well-formed.
pub open spec fn logger_wf(state: Option<ProgressTuiLogger>) -> bool {
    state is Some ==> state->0.wf()
}

pub fn log_message(state: &mut Option<ProgressTuiLogger>, message: TuiMessage) -> (printed:
    Option<TuiMessage>)
    requires
        logger_wf(*old(state)),
        *old(state) is Some ==> message.in_range(),
    ensures
        logger_wf(*final(state)),
        logged(*old(state), *final(state), message, printed),
{
    match state {
        None => Some(message),
        Some(running) => {
            running.take_message(&message);
            None
        },
    }
}

pub fn log_info(state: &mut Option<ProgressTuiLogger>, message: String) -> (printed: Option<
    TuiMessage,
>)
    requires
        logger_wf(*old(state)),
    ensures
        logger_wf(*final(state)),
        logged(
            *old(state),
            *final(state),
            (TuiMessage::Line { message, severity: Severity::Info }),
            printed,
        ),
{
    log_message(state, TuiMessage::Line { message, severity: Severity::Info })
}

pub fn log_warning(state: &mut Option<ProgressTuiLogger>, message: String) -> (printed: Option<
    TuiMessage,
>)
    requires
        logger_wf(*old(state)),
    ensures
        logger_wf(*final(state)),
        logged(
            *old(state),
            *final(state),
            (TuiMessage::Line { message, severity: Severity::Warning }),
            printed,
        ),
{
    log_message(state, TuiMessage::Line { message, severity: Severity::Warning })
}

pub fn log_error(state: &mut Option<ProgressTuiLogger>, message: String) -> (printed: Option<
    TuiMessage,
>)
    requires
        logger_wf(*old(state)),
    ensures
        logger_wf(*final(state)),
        logged(
            *old(state),
            *final(state),
            (TuiMessage::Line { message, severity: Severity::Error }),
            printed,
        ),
{
    log_message(state, TuiMessage::Line { message, severity: Severity::Error })
}

pub fn log_state(logger: &mut Option<ProgressTuiLogger>, state: String) -> (printed: Option<
    TuiMessage,
>)
    requires
        logger_wf(*old(logger)),
    ensures
        logger_wf(*final(logger)),
        logged(*old(logger), *final(logger), (TuiMessage::State { state }), printed),
{
    log_message(logger, TuiMessage::State { state })
}

pub fn log_window_name(
    state: &mut Option<ProgressTuiLogger>,
    window_name: String,
) -> (printed: Option<TuiMessage>)
    requires
        logger_wf(*old(state)),
    ensures
        logger_wf(*final(state)),
        logged(*old(state), *final(state), (TuiMessage::WindowName { window_name }), printed),
{
    log_message(state, TuiMessage::WindowName { window_name })
}

pub fn log_key_value_pair(
    state: &mut Option<ProgressTuiLogger>,
    key: String,
    value: String,
) -> (printed: Option<TuiMessage>)
    requires
        logger_wf(*old(state)),
    ensures
        logger_wf(*final(state)),
        logged(*old(state), *final(state), (TuiMessage::KeyValuePair { key, value }), printed),
{
    log_message(state, TuiMessage::KeyValuePair { key, value })
}

pub fn log_master_progress(
    state: &mut Option<ProgressTuiLogger>,
    progress: Float32,
    label: String,
) -> (printed: Option<TuiMessage>)
    requires
        logger_wf(*old(state)),
        *old(state) is Some ==> progress.in_unit_range(),
    ensures
        logger_wf(*final(state)),
        logged(*old(state), *final(state), (TuiMessage::MasterProgress { progress, label }), printed),
{
    log_message(state, TuiMessage::MasterProgress { progress, label })
}

pub fn log_worker_progress(
    state: &mut Option<ProgressTuiLogger>,
    worker_name: String,
    progress: Float32,
    label: String,
) -> (printed: Option<TuiMessage>)
    requires
        logger_wf(*old(state)),
        *old(state) is Some ==> progress.in_unit_range(),
    ensures
        logger_wf(*final(state)),
        logged(
            *old(state),
            *final(state),
            (TuiMessage::WorkerProgress { worker_name, progress, label }),
            printed,
        ),
{
    log_message(state, TuiMessage::WorkerProgress { worker_name, progress, label })
}

pub fn delete_worker_progress_bar(
    state: &mut Option<ProgressTuiLogger>,
    worker_name: String,
) -> (printed: Option<TuiMessage>)
    requires
        logger_wf(*old(state)),
    ensures
        logger_wf(*final(state)),
        logged(*old(state), *final(state), (TuiMessage::DeleteWorkerBar { worker_name }), printed),
{
    log_message(state, TuiMessage::DeleteWorkerBar { worker_name })
}

pub fn log_exit_hint(state: &mut Option<ProgressTuiLogger>, hint: String) -> (printed: Option<
    TuiMessage,
>)
    requires
        logger_wf(*old(state)),
    ensures
        logger_wf(*final(state)),
        logged(*old(state), *final(state), (TuiMessage::ExitHint(hint)), printed),
{
    log_message(state, TuiMessage::ExitHint(hint))
}

// ---------------------------------------------------------------------------
// Laws
// ---------------------------------------------------------------------------

/// A frame holds a field exactly where it changed, and then as it is now.
pub proof fn frames_hold_changed_fields(
    now: ProgressStats,
    before: ProgressStats,
    lines: Seq<LineView>,
)
    ensures
        ({
            let frame = delta(now, before, lines);
            &&& now@.state == before@.state ==> frame.state is None
            &&& now@.state != before@.state ==> frame.state == Some(now@.state)
            &&& now@.window_name == before@.window_name ==> frame.window_name is None
            &&& now@.window_name != before@.window_name ==> frame.window_name == Some(
                now@.window_name,
            )
            &&& now@.exit_hint == before@.exit_hint ==> frame.exit_hint is None
            &&& now@.exit_hint != before@.exit_hint ==> frame.exit_hint == Some(now@.exit_hint)
            &&& now@.master_progress.same(before@.master_progress) ==> frame.master_progress is None
            &&& !now@.master_progress.same(before@.master_progress) ==> frame.master_progress
                == Some(now@.master_progress)
            &&& frame.log_lines == lines
        }),
{
}

/// A frame holds a key exactly where the key is new or has another value, and then the value that
/// it has now.
pub proof fn frames_hold_changed_keys(
    now: ProgressStats,
    before: ProgressStats,
    lines: Seq<LineView>,
    key: Seq<char>,
    value: Seq<char>,
)
    requires
        now.wf(),
    ensures
        delta(now, before, lines).key_values.contains((key, value)) <==> {
            &&& now@.key_values.contains_key(key)
            &&& now@.key_values[key] == value
            &&& !(before@.key_values.contains_key(key) && before@.key_values[key] == value)
        },
{
    let keep = |k: Seq<char>| text_changed(now@.key_values, before@.key_values, k);
    let keys = now.key_values.keys();
    let kept = keys_where(keys, keep);
    let pairs = delta(now, before, lines).key_values;
    lemma_keys_where(keys, keep);
    text_map::lemma_map_of(keys, now.key_values.values());
    if pairs.contains((key, value)) {
        let i = choose|i: int| 0 <= i < pairs.len() && pairs[i] == (key, value);
        assert(kept[i] == key);
        assert(kept.contains(key));
    }
    if now@.key_values.contains_key(key) && now@.key_values[key] == value && !(
    before@.key_values.contains_key(key) && before@.key_values[key] == value) {
        assert(keys.contains(key));
        assert(kept.contains(key));
        let i = choose|i: int| 0 <= i < kept.len() && kept[i] == key;
        assert(pairs[i] == (key, value));
    }
}

/// A frame holds a worker exactly where the worker is new or its gauge does not compare as equal,
/// and then the gauge that it has now. It deletes the workers that are gone.
pub proof fn frames_hold_changed_workers(
    now: ProgressStats,
    before: ProgressStats,
    lines: Seq<LineView>,
    name: Seq<char>,
    gauge: GaugeView,
)
    requires
        now.wf(),
        before.wf(),
    ensures
        delta(now, before, lines).worker_progress.contains((name, gauge)) <==> {
            &&& now@.worker_progress.contains_key(name)
            &&& now@.worker_progress[name] == gauge
            &&& !(before@.worker_progress.contains_key(name) && before@.worker_progress[name].same(
                gauge,
            ))
        },
        delta(now, before, lines).deleted_workers.contains(name) <==> {
            &&& before@.worker_progress.contains_key(name)
            &&& !now@.worker_progress.contains_key(name)
        },
{
    let keep = |k: Seq<char>| gauge_changed(now@.worker_progress, before@.worker_progress, k);
    let keys = now.worker_progress.keys();
    let kept = keys_where(keys, keep);
    let pairs = delta(now, before, lines).worker_progress;
    lemma_keys_where(keys, keep);
    text_map::lemma_map_of(keys, now.worker_progress.values());
    if pairs.contains((name, gauge)) {
        let i = choose|i: int| 0 <= i < pairs.len() && pairs[i] == (name, gauge);
        assert(kept[i] == name);
        assert(kept.contains(name));
    }
    if now@.worker_progress.contains_key(name) && now@.worker_progress[name] == gauge && !(
    before@.worker_progress.contains_key(name) && before@.worker_progress[name].same(gauge)) {
        assert(keys.contains(name));
        assert(kept.contains(name));
        let i = choose|i: int| 0 <= i < kept.len() && kept[i] == name;
        assert(pairs[i] == (name, gauge));
    }
    let gone_keep = |k: Seq<char>| !now@.worker_progress.contains_key(k);
    lemma_keys_where(before.worker_progress.keys(), gone_keep);
    text_map::lemma_map_of(before.worker_progress.keys(), before.worker_progress.values());
    assert(before@.worker_progress.contains_key(name) == before.worker_progress.keys().contains(
        name,
    ));
}

/// A frame is written exactly where it holds anything; a line is enough.
pub proof fn empty_frames_hold_nothing(frame: FrameView)
    ensures
        frame.empty() == (frame.state is None && frame.window_name is None
            && frame.exit_hint is None
            && frame.key_values.len() == 0 && frame.worker_progress.len() == 0
            && frame.deleted_workers.len() == 0 && frame.master_progress is None
            && frame.log_lines.len() == 0),
        FRAME_INTERVAL_MS == 500,
{
}

/// A running logger keeps a line with its text and severity, behind those that it has; other
/// messages add no line. Without a logger a message comes back as it is.
pub proof fn loggers_keep_lines_in_order(
    before: ProgressTuiLogger,
    after: ProgressTuiLogger,
    message: TuiMessage,
)
    requires
        before.took(message, after),
    ensures
        message is Line ==> after.pending() == before.pending().push(
            (LineView { message: message->Line_message@, severity: message->Line_severity }),
        ),
        !(message is Line) ==> after.pending() == before.pending(),
        after.last_flushed_snapshot == before.last_flushed_snapshot,
        logged(None, None, message, Some(message)),
        logged(Some(before), Some(after), message, None),
{
    assert(message is Line ==> after.pending() =~= before.pending().push(
        (LineView { message: message->Line_message@, severity: message->Line_severity }),
    ));
    assert(!(message is Line) ==> after.pending() =~= before.pending());
}

/// Two frames are due every second.
pub proof fn two_frames_are_due_every_second()
    ensures
        FRAME_INTERVAL_MS * 2 == 1000,
        READER_DISCONNECTED_HINT@ == "Reader disconnected. Ctrl+C to exit."@,
{
}

}
