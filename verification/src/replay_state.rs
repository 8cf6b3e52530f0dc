//! The state of a progress display, rebuilt from the frames of a log.

use crate::float_bits;
use crate::float_bits::Float64;
use crate::log_lines;
use crate::log_lines::{LineView, LogLines, MAX_LOG_LINES};
use crate::progress_tui_logger;
use crate::progress_tui_logger::{FrameView, ProgressLogFrame, READER_DISCONNECTED_HINT};
use crate::progress_tui_protocol::{GaugeView, ProgressStats, StatsView, DEFAULT_WINDOW_NAME};
use crate::text_map::Duplicate;
use vstd::prelude::*;

verus! {

/// The exit hint of a reader that has not read one.
pub const READER_ACTIVE_HINT: &'static str = "Reader active. Ctrl+C to exit.";

/// The state of a display after some frames.
#[derive(Debug)]
pub struct ReplayFrameState {
    pub elapsed_seconds: Float64,
    pub stats: ProgressStats,
    pub log_lines: LogLines,
}

/// The contents of a [`ReplayFrameState`].
#[verifier::ext_equal]
pub struct ReplayView {
    pub elapsed_seconds: Float64,
    pub stats: StatsView,
    pub log_lines: Seq<LineView>,
}

impl View for ReplayFrameState {
    type V = ReplayView;

    open spec fn view(&self) -> ReplayView {
        ReplayView {
            elapsed_seconds: self.elapsed_seconds,
            stats: self.stats@,
            log_lines: self.log_lines@,
        }
    }
}

/// `m` with all pairs put in, one after the other.
pub open spec fn inserted_all<W>(m: Map<Seq<char>, W>, pairs: Seq<(Seq<char>, W)>) -> Map<
    Seq<char>,
    W,
>
    decreases pairs.len(),
{
    if pairs.len() == 0 {
        m
    } else {
        inserted_all(m, pairs.drop_last()).insert(pairs.last().0, pairs.last().1)
    }
}

/// The value that a frame gives, or the one before.
pub open spec fn or_kept<W>(given: Option<W>, kept: W) -> W {
    match given {
        Some(w) => w,
        None => kept,
    }
}

impl ReplayView {
    /// The state before the first frame.
    pub open spec fn initial() -> ReplayView {
        ReplayView {
            elapsed_seconds: Float64 { bits: 0 },
            stats: StatsView::initial(DEFAULT_WINDOW_NAME@, READER_ACTIVE_HINT@),
            log_lines: Seq::empty(),
        }
    }

    /// The state after one more frame.
    pub open spec fn applied(self, frame: FrameView) -> ReplayView {
        ReplayView {
            elapsed_seconds: frame.elapsed_seconds,
            stats: StatsView {
                state: or_kept(frame.state, self.stats.state),
                window_name: or_kept(frame.window_name, self.stats.window_name),
                exit_hint: or_kept(frame.exit_hint, self.stats.exit_hint),
                key_values: inserted_all(self.stats.key_values, frame.key_values),
                worker_progress: inserted_all(
                    self.stats.worker_progress,
                    frame.worker_progress,
                ).remove_keys(frame.deleted_workers.to_set()),
                master_progress: or_kept(frame.master_progress, self.stats.master_progress),
            },
            log_lines: log_lines::latest(
                self.log_lines + frame.log_lines,
                MAX_LOG_LINES as nat,
            ),
        }
    }
}

/// The state after a series of frames.
pub open spec fn replayed(frames: Seq<FrameView>) -> ReplayView
    decreases frames.len(),
{
    if frames.len() == 0 {
        ReplayView::initial()
    } else {
        replayed(frames.drop_last()).applied(frames.last())
    }
}

impl ReplayFrameState {
    pub open spec fn wf(self) -> bool {
        &&& self.stats.wf()
        &&& self.log_lines.wf()
    }

    /// Takes one more frame into the state.
    pub fn apply_frame(&mut self, frame: &ProgressLogFrame)
        requires
            old(self).wf(),
        ensures
            final(self).wf(),
            final(self)@ == old(self)@.applied(frame@),
    {
        self.elapsed_seconds = frame.elapsed_seconds;
        if let Some(state) = &frame.state {
            self.stats.state = state.clone();
        }
        if let Some(window_name) = &frame.window_name {
            self.stats.window_name = window_name.clone();
        }
        if let Some(exit_hint) = &frame.exit_hint {
            self.stats.exit_hint = exit_hint.clone();
        }
        self.apply_key_values(&frame.key_values);
        self.apply_workers(&frame.worker_progress);
        self.drop_workers(&frame.deleted_workers);
        if let Some(master_progress) = &frame.master_progress {
            self.stats.master_progress = master_progress.duplicate();
        }
        self.log_lines.push_all(&frame.log_lines);
        assert(self@ =~= old(self)@.applied(frame@));
    }

    fn apply_key_values(&mut self, pairs: &Vec<(String, String)>)
        requires
            old(self).wf(),
        ensures
            final(self).wf(),
            final(self)@ == (ReplayView {
                stats: StatsView {
                    key_values: inserted_all(
                        old(self)@.stats.key_values,
                        progress_tui_logger::pair_views(pairs@),
                    ),
                    ..old(self)@.stats
                },
                ..old(self)@
            }),
    {
        let ghost views = progress_tui_logger::pair_views(pairs@);
        let ghost before = self@;
        let mut i: usize = 0;
        assert(views.take(0) =~= Seq::<(Seq<char>, Seq<char>)>::empty());
        while i < pairs.len()
            invariant
                i <= pairs@.len(),
                views == progress_tui_logger::pair_views(pairs@),
                self.wf(),
                self@ == (ReplayView {
                    stats: StatsView {
                        key_values: inserted_all(
                            before.stats.key_values,
                            views.take(i as int),
                        ),
                        ..before.stats
                    },
                    ..before
                }),
            decreases pairs@.len() - i,
        {
            self.stats.key_values.insert(pairs[i].0.clone(), pairs[i].1.clone());
            assert(views.take(i + 1).drop_last() =~= views.take(i as int));
            assert(views.take(i + 1).last() == views[i as int]);
            i = i + 1;
        }
        assert(views.take(views.len() as int) =~= views);
    }

    fn apply_workers(
        &mut self,
        pairs: &Vec<(String, crate::progress_tui_protocol::ProgressGaugeState)>,
    )
        requires
            old(self).wf(),
        ensures
            final(self).wf(),
            final(self)@ == (ReplayView {
                stats: StatsView {
                    worker_progress: inserted_all(
                        old(self)@.stats.worker_progress,
                        progress_tui_logger::pair_views(pairs@),
                    ),
                    ..old(self)@.stats
                },
                ..old(self)@
            }),
    {
        let ghost views = progress_tui_logger::pair_views(pairs@);
        let ghost before = self@;
        let mut i: usize = 0;
        assert(views.take(0) =~= Seq::<(Seq<char>, GaugeView)>::empty());
        while i < pairs.len()
            invariant
                i <= pairs@.len(),
                views == progress_tui_logger::pair_views(pairs@),
                self.wf(),
                self@ == (ReplayView {
                    stats: StatsView {
                        worker_progress: inserted_all(
                            before.stats.worker_progress,
                            views.take(i as int),
                        ),
                        ..before.stats
                    },
                    ..before
                }),
            decreases pairs@.len() - i,
        {
            self.stats.worker_progress.insert(pairs[i].0.clone(), pairs[i].1.duplicate());
            assert(views.take(i + 1).drop_last() =~= views.take(i as int));
            assert(views.take(i + 1).last() == views[i as int]);
            i = i + 1;
        }
        assert(views.take(views.len() as int) =~= views);
    }

    fn drop_workers(&mut self, names: &Vec<String>)
        requires
            old(self).wf(),
        ensures
            final(self).wf(),
            final(self)@ == (ReplayView {
                stats: StatsView {
                    worker_progress: old(self)@.stats.worker_progress.remove_keys(
                        crate::text::texts(names@).to_set(),
                    ),
                    ..old(self)@.stats
                },
                ..old(self)@
            }),
    {
        let ghost views = crate::text::texts(names@);
        let ghost before = self@;
        let mut i: usize = 0;
        assert(before.stats.worker_progress.remove_keys(views.take(0).to_set())
            =~= before.stats.worker_progress);
        while i < names.len()
            invariant
                i <= names@.len(),
                views == crate::text::texts(names@),
                self.wf(),
                self@ == (ReplayView {
                    stats: StatsView {
                        worker_progress: before.stats.worker_progress.remove_keys(
                            views.take(i as int).to_set(),
                        ),
                        ..before.stats
                    },
                    ..before
                }),
            decreases names@.len() - i,
        {
            self.stats.worker_progress.remove(names[i].as_str());
            proof {
                let name = views[i as int];
                let few = views.take(i as int);
                let more = views.take(i + 1);
                let now = few.to_set();
                let next = more.to_set();
                assert forall|k: Seq<char>| next.contains(k) == (now.contains(k) || k == name) by {
                    if few.contains(k) {
                        let j = choose|j: int| 0 <= j < few.len() && few[j] == k;
                        assert(more[j] == k);
                    }
                    assert(more[i as int] == name);
                    if more.contains(k) && k != name {
                        let j = choose|j: int| 0 <= j < more.len() && more[j] == k;
                        assert(few[j] == k);
                    }
                }
                assert(before.stats.worker_progress.remove_keys(now).remove(name)
                    =~= before.stats.worker_progress.remove_keys(next));
            }
            i = i + 1;
        }
        assert(views.take(views.len() as int) =~= views);
    }
}

impl Default for ReplayFrameState {
    fn default() -> (r: Self)
        ensures
            r.wf(),
            r@ == ReplayView::initial(),
    {
        ReplayFrameState {
            elapsed_seconds: Float64::zero(),
            stats: ProgressStats::initial(DEFAULT_WINDOW_NAME, READER_ACTIVE_HINT),
            log_lines: LogLines::new(),
        }
    }
}

impl Duplicate for ReplayFrameState {
    fn duplicate(&self) -> (r: Self)
        ensures
            self.wf() ==> r.wf(),
    {
        ReplayFrameState {
            elapsed_seconds: self.elapsed_seconds,
            stats: self.stats.duplicate(),
            log_lines: self.log_lines.duplicate(),
        }
    }
}

// ---------------------------------------------------------------------------
// What a reader shows is what the logger was told
// ---------------------------------------------------------------------------

/// The same workers, with gauges that compare as equal.
pub open spec fn same_gauges(a: Map<Seq<char>, GaugeView>, b: Map<Seq<char>, GaugeView>) -> bool {
    &&& a.dom() == b.dom()
    &&& forall|k: Seq<char>| #[trigger] a.contains_key(k) ==> a[k].same(b[k])
}

/// A reader shows what the logger holds. Until the logger is given an exit hint, each of the two
/// keeps its own.
pub open spec fn mirrors(shown: StatsView, logged: StatsView) -> bool {
    &&& shown.state == logged.state
    &&& shown.window_name == logged.window_name
    &&& shown.exit_hint == logged.exit_hint || (shown.exit_hint == READER_ACTIVE_HINT@
        && logged.exit_hint == READER_DISCONNECTED_HINT@)
    &&& shown.key_values == logged.key_values
    &&& same_gauges(shown.worker_progress, logged.worker_progress)
    &&& shown.master_progress.same(logged.master_progress)
}

proof fn lemma_inserted_all<W>(
    m: Map<Seq<char>, W>,
    keys: Seq<Seq<char>>,
    values: Map<Seq<char>, W>,
)
    ensures
        ({
            let r = inserted_all(m, progress_tui_logger::with_values(keys, values));
            forall|k: Seq<char>| #[trigger]
                r.contains_key(k) == (m.contains_key(k) || keys.contains(k))
        }),
        ({
            let r = inserted_all(m, progress_tui_logger::with_values(keys, values));
            forall|k: Seq<char>| #[trigger]
                r.contains_key(k) ==> r[k] == (if keys.contains(k) {
                    values[k]
                } else {
                    m[k]
                })
        }),
    decreases keys.len(),
{
    let pairs = progress_tui_logger::with_values(keys, values);
    let r = inserted_all(m, pairs);
    if keys.len() > 0 {
        let init = keys.drop_last();
        assert(pairs.drop_last() =~= progress_tui_logger::with_values(init, values));
        lemma_inserted_all(m, init, values);
        let last = keys.last();
        assert forall|k: Seq<char>| keys.contains(k) == (init.contains(k) || k == last) by {
            if keys.contains(k) {
                let j = choose|j: int| 0 <= j < keys.len() && keys[j] == k;
                if j < init.len() {
                    assert(init[j] == k);
                }
            }
            if init.contains(k) {
                let j = choose|j: int| 0 <= j < init.len() && init[j] == k;
                assert(keys[j] == k);
            }
            assert(keys[keys.len() - 1] == last);
        }
        assert(pairs.last() == (last, values[last]));
        assert(r == inserted_all(m, pairs.drop_last()).insert(last, values[last]));
    }
}

/// One frame takes a reader from what the logger held at the frame before to what it holds now.
pub proof fn frame_keeps_reader_in_step(
    shown: ReplayView,
    before: ProgressStats,
    now: ProgressStats,
    lines: Seq<LineView>,
    elapsed_seconds: Float64,
)
    requires
        before.wf(),
        now.wf(),
        now@.in_range(),
        before@.key_values.dom().subset_of(now@.key_values.dom()),
        mirrors(shown.stats, before@),
    ensures
        mirrors(
            shown.applied(
                FrameView {
                    elapsed_seconds,
                    ..progress_tui_logger::delta(now, before, lines)
                },
            ).stats,
            now@,
        ),
{
    let frame = FrameView {
        elapsed_seconds,
        ..progress_tui_logger::delta(now, before, lines)
    };
    let after = shown.applied(frame).stats;

    let text_keep = |k: Seq<char>|
        progress_tui_logger::text_changed(now@.key_values, before@.key_values, k);
    let text_keys = progress_tui_logger::keys_where(now.key_values.keys(), text_keep);
    progress_tui_logger::lemma_keys_where(now.key_values.keys(), text_keep);
    lemma_inserted_all(shown.stats.key_values, text_keys, now@.key_values);
    assert forall|k: Seq<char>| after.key_values.contains_key(k) == now@.key_values.contains_key(
        k,
    ) by {
        if shown.stats.key_values.contains_key(k) {
            assert(before@.key_values.dom().contains(k));
        }
        if text_keys.contains(k) {
            assert(now.key_values.keys().contains(k));
        }
        if now@.key_values.contains_key(k) {
            assert(now.key_values.keys().contains(k));
        }
    }
    assert forall|k: Seq<char>| after.key_values.contains_key(k) implies after.key_values[k]
        == now@.key_values[k] by {
        assert(now.key_values.keys().contains(k));
    }
    assert(after.key_values =~= now@.key_values);

    let gauge_keep = |k: Seq<char>|
        progress_tui_logger::gauge_changed(now@.worker_progress, before@.worker_progress, k);
    let gauge_keys = progress_tui_logger::keys_where(now.worker_progress.keys(), gauge_keep);
    progress_tui_logger::lemma_keys_where(now.worker_progress.keys(), gauge_keep);
    lemma_inserted_all(shown.stats.worker_progress, gauge_keys, now@.worker_progress);
    let gone_keep = |k: Seq<char>| !now@.worker_progress.contains_key(k);
    let gone = progress_tui_logger::keys_where(before.worker_progress.keys(), gone_keep);
    progress_tui_logger::lemma_keys_where(before.worker_progress.keys(), gone_keep);
    let inserted = inserted_all(shown.stats.worker_progress, frame.worker_progress);
    assert forall|k: Seq<char>| after.worker_progress.contains_key(k)
        == now@.worker_progress.contains_key(k) by {
        assert(gone.to_set().contains(k) == gone.contains(k));
        assert(inserted.contains_key(k) == (shown.stats.worker_progress.contains_key(k)
            || gauge_keys.contains(k)));
        if now@.worker_progress.contains_key(k) {
            assert(now.worker_progress.keys().contains(k));
            assert(!gone.contains(k));
            if !gauge_keys.contains(k) {
                assert(before@.worker_progress.contains_key(k));
                assert(shown.stats.worker_progress.dom().contains(k));
            }
        } else if shown.stats.worker_progress.dom().contains(k) {
            assert(before@.worker_progress.contains_key(k));
            assert(before.worker_progress.keys().contains(k));
            assert(gone.contains(k));
        }
    }
    assert(after.worker_progress.dom() =~= now@.worker_progress.dom());
    assert forall|k: Seq<char>| #[trigger] after.worker_progress.contains_key(
        k,
    ) implies after.worker_progress[k].same(now@.worker_progress[k]) by {
        assert(now@.worker_progress.contains_key(k));
        assert(now.worker_progress.keys().contains(k));
        let n = now@.worker_progress[k];
        assert(inserted.contains_key(k));
        if gauge_keys.contains(k) {
            assert(after.worker_progress[k] == n);
            float_bits::unit_range_compares(n.progress);
        } else {
            assert(shown.stats.worker_progress.dom().contains(k));
            assert(shown.stats.worker_progress.contains_key(k));
            assert(after.worker_progress[k] == shown.stats.worker_progress[k]);
            float_bits::same_value_is_transitive(
                shown.stats.worker_progress[k].progress,
                before@.worker_progress[k].progress,
                n.progress,
            );
        }
    }
    float_bits::unit_range_compares(now@.master_progress.progress);
    if now@.master_progress.same(before@.master_progress) {
        float_bits::same_value_is_transitive(
            now@.master_progress.progress,
            before@.master_progress.progress,
            shown.stats.master_progress.progress,
        );
    }
}

/// A reader that has read nothing shows what a logger holds that was told nothing.
pub proof fn reader_starts_in_step()
    ensures
        mirrors(
            replayed(Seq::empty()).stats,
            StatsView::initial(DEFAULT_WINDOW_NAME@, READER_DISCONNECTED_HINT@),
        ),
{
    float_bits::unit_range_compares(GaugeView::zero().progress);
}

/// A reader of all frames shows what the logger holds, after each frame that the logger writes
/// and after each time that it has nothing to write.
pub proof fn reader_follows_logger(
    frames: Seq<FrameView>,
    before: ProgressStats,
    now: ProgressStats,
    lines: Seq<LineView>,
    elapsed_seconds: Float64,
)
    requires
        before.wf(),
        now.wf(),
        now@.in_range(),
        before@.key_values.dom().subset_of(now@.key_values.dom()),
        mirrors(replayed(frames).stats, before@),
    ensures
        ({
            let frame = FrameView {
                elapsed_seconds,
                ..progress_tui_logger::delta(now, before, lines)
            };
            &&& mirrors(replayed(frames.push(frame)).stats, now@)
            &&& frame.empty() ==> mirrors(replayed(frames).stats, now@)
        }),
{
    let frame = FrameView {
        elapsed_seconds,
        ..progress_tui_logger::delta(now, before, lines)
    };
    let shown = replayed(frames);
    frame_keeps_reader_in_step(shown, before, now, lines, elapsed_seconds);
    assert(frames.push(frame).drop_last() =~= frames);
    if frame.empty() {
        assert(inserted_all(shown.stats.key_values, frame.key_values) == shown.stats.key_values);
        assert(shown.stats.worker_progress.remove_keys(frame.deleted_workers.to_set())
            =~= shown.stats.worker_progress);
        assert(shown.applied(frame).stats =~= shown.stats);
    }
}

/// All log lines of a series of frames.
pub open spec fn all_lines(frames: Seq<FrameView>) -> Seq<LineView>
    decreases frames.len(),
{
    if frames.len() == 0 {
        Seq::empty()
    } else {
        all_lines(frames.drop_last()) + frames.last().log_lines
    }
}

/// A reader keeps the latest of all log lines that it has read, in order.
pub proof fn reader_keeps_latest_lines(frames: Seq<FrameView>)
    ensures
        replayed(frames).log_lines == log_lines::latest(all_lines(frames), MAX_LOG_LINES as nat),
        replayed(frames).log_lines.len() <= MAX_LOG_LINES,
    decreases frames.len(),
{
    if frames.len() > 0 {
        let init = frames.drop_last();
        reader_keeps_latest_lines(init);
        log_lines::latest_of_latest(
            all_lines(init),
            frames.last().log_lines,
            MAX_LOG_LINES as nat,
        );
    }
}

/// The name is that of one of the pairs.
pub open spec fn has_name<W>(pairs: Seq<(Seq<char>, W)>, name: Seq<char>) -> bool {
    exists|i: int| 0 <= i < pairs.len() && (#[trigger] pairs[i]).0 == name
}

proof fn lemma_inserted<W>(
    m: Map<Seq<char>, W>,
    pairs: Seq<(Seq<char>, W)>,
    name: Seq<char>,
    at: int,
)
    requires
        !has_name(pairs, name) || (0 <= at < pairs.len() && pairs[at].0 == name && forall|i: int|
            at < i < pairs.len() ==> (#[trigger] pairs[i]).0 != name),
    ensures
        !has_name(pairs, name) ==> {
            &&& inserted_all(m, pairs).contains_key(name) == m.contains_key(name)
            &&& m.contains_key(name) ==> inserted_all(m, pairs)[name] == m[name]
        },
        has_name(pairs, name) ==> {
            &&& inserted_all(m, pairs).contains_key(name)
            &&& inserted_all(m, pairs)[name] == pairs[at].1
        },
    decreases pairs.len(),
{
    if pairs.len() > 0 {
        let init = pairs.drop_last();
        assert(forall|i: int| 0 <= i < init.len() ==> #[trigger] init[i] == pairs[i]);
        assert(pairs[pairs.len() - 1] == pairs.last());
        if has_name(init, name) {
            let i = choose|i: int| 0 <= i < init.len() && (#[trigger] init[i]).0 == name;
            assert(pairs[i].0 == name);
        }
        if has_name(pairs, name) && at < init.len() {
            assert(init[at].0 == name);
            lemma_inserted(m, init, name, at);
        } else if !has_name(pairs, name) {
            lemma_inserted(m, init, name, at);
        }
    }
}

/// A frame sets what it holds and leaves the rest: its time always; the state, the window's name,
/// the hint and the master progress if it holds them.
pub proof fn frames_set_what_they_hold(shown: ReplayView, frame: FrameView)
    ensures
        ({
            let after = shown.applied(frame);
            &&& after.elapsed_seconds == frame.elapsed_seconds
            &&& frame.state is Some ==> after.stats.state == frame.state->0
            &&& frame.state is None ==> after.stats.state == shown.stats.state
            &&& frame.window_name is Some ==> after.stats.window_name == frame.window_name->0
            &&& frame.window_name is None ==> after.stats.window_name == shown.stats.window_name
            &&& frame.exit_hint is Some ==> after.stats.exit_hint == frame.exit_hint->0
            &&& frame.exit_hint is None ==> after.stats.exit_hint == shown.stats.exit_hint
            &&& frame.master_progress is Some ==> after.stats.master_progress
                == frame.master_progress->0
            &&& frame.master_progress is None ==> after.stats.master_progress
                == shown.stats.master_progress
        }),
{
}

/// A frame gives each key the last value that it holds for the key, and leaves all other keys.
pub proof fn frames_set_keys(shown: ReplayView, frame: FrameView, key: Seq<char>, at: int)
    requires
        !has_name(frame.key_values, key) || (0 <= at < frame.key_values.len()
            && frame.key_values[at].0 == key && forall|i: int|
            at < i < frame.key_values.len() ==> (#[trigger] frame.key_values[i]).0 != key),
    ensures
        ({
            let before = shown.stats.key_values;
            let after = shown.applied(frame).stats.key_values;
            if has_name(frame.key_values, key) {
                after.contains_key(key) && after[key] == frame.key_values[at].1
            } else {
                &&& after.contains_key(key) == before.contains_key(key)
                &&& before.contains_key(key) ==> after[key] == before[key]
            }
        }),
{
    lemma_inserted(shown.stats.key_values, frame.key_values, key, at);
}

/// A frame removes the workers that it deletes, gives each other worker the last progress that it
/// holds for the worker, and leaves the rest.
pub proof fn frames_set_workers(shown: ReplayView, frame: FrameView, name: Seq<char>, at: int)
    requires
        !has_name(frame.worker_progress, name) || (0 <= at < frame.worker_progress.len()
            && frame.worker_progress[at].0 == name && forall|i: int|
            at < i < frame.worker_progress.len() ==> (#[trigger] frame.worker_progress[i]).0
                != name),
    ensures
        ({
            let before = shown.stats.worker_progress;
            let after = shown.applied(frame).stats.worker_progress;
            if frame.deleted_workers.contains(name) {
                !after.contains_key(name)
            } else if has_name(frame.worker_progress, name) {
                after.contains_key(name) && after[name] == frame.worker_progress[at].1
            } else {
                &&& after.contains_key(name) == before.contains_key(name)
                &&& before.contains_key(name) ==> after[name] == before[name]
            }
        }),
{
    lemma_inserted(shown.stats.worker_progress, frame.worker_progress, name, at);
    assert(frame.deleted_workers.to_set().contains(name) == frame.deleted_workers.contains(name));
}

/// A frame adds its lines behind those that are shown, of which the last hundred stay.
pub proof fn frames_add_lines(shown: ReplayView, frame: FrameView, from_end: int)
    ensures
        ({
            let after = shown.applied(frame).log_lines;
            let all = shown.log_lines + frame.log_lines;
            &&& after.len() == (if all.len() < 100 {
                all.len() as int
            } else {
                100
            })
            &&& 0 <= from_end < after.len() ==> after[after.len() - 1 - from_end] == all[all.len()
                - 1 - from_end]
        }),
{
}

/// A reader before the first frame shows nothing but the usual texts; after some frames it shows
/// the time of the last one.
pub proof fn replay_shows_the_time_of_the_last_frame(frames: Seq<FrameView>, frame: FrameView)
    ensures
        replayed(Seq::<FrameView>::empty()).elapsed_seconds.bits == 0,
        replayed(Seq::<FrameView>::empty()).log_lines.len() == 0,
        replayed(Seq::<FrameView>::empty()).stats == StatsView::initial(
            "Progress Screen"@,
            "Reader active. Ctrl+C to exit."@,
        ),
        replayed(frames.push(frame)).elapsed_seconds == frame.elapsed_seconds,
        replayed(frames.push(frame)) == replayed(frames).applied(frame),
{
    assert(frames.push(frame).drop_last() =~= frames);
}

}
