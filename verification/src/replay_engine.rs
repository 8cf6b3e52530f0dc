//! Playback of a progress log: which frame is shown, and the state at that frame.
//!
//! The engine reads no frames itself. It says when the log is to be reloaded and which frame it
//! needs, and the caller hands it the number of frames, or the frame.

use crate::lru_cache;
use crate::progress_tui_logger;
use crate::progress_tui_logger::{FrameView, ProgressLogFrame};
use crate::replay_state;
use crate::replay_state::{ReplayFrameState, ReplayView};
use crate::text_map::Duplicate;
use lru::LruCache;
use vstd::prelude::*;

verus! {

pub const CACHE_CAPACITY: usize = 48;

/// Every frame whose number is a multiple of this has its state cached on the way.
pub const CACHE_STRIDE: usize = 20;

pub const SPEED_STEP_FRAMES_PER_HALF_SECOND: i32 = 1;

pub const DEFAULT_SPEED_FRAMES_PER_HALF_SECOND: i32 = 1;

// ---------------------------------------------------------------------------
// The cache of states
// ---------------------------------------------------------------------------

/// The entries of a cache of states, most recently used first.
pub uninterp spec fn state_entries(cache: LruCache<usize, ReplayFrameState>) -> Seq<
    (usize, ReplayFrameState),
>;

/// The capacity that a cache of states was made with.
pub uninterp spec fn state_capacity(cache: LruCache<usize, ReplayFrameState>) -> nat;

/// `LruCache::new` makes an empty cache of the given capacity. It allocates room for that many
/// entries at once, which is why the capacity is bounded.
#[verifier::external_body]
fn new_state_cache(capacity: usize) -> (cache: LruCache<usize, ReplayFrameState>)
    requires
        1 <= capacity <= lru_cache::MAX_CACHE_CAPACITY,
    ensures
        state_entries(cache) == Seq::<(usize, ReplayFrameState)>::empty(),
        state_capacity(cache) == capacity,
{
    LruCache::new(std::num::NonZeroUsize::new(capacity).unwrap())
}

/// `LruCache::put` stores a value under a key and makes it the most recent entry. An entry of
/// the same key is replaced. A full cache drops its least recent entry.
#[verifier::external_body]
fn put_state(cache: &mut LruCache<usize, ReplayFrameState>, frame: usize, state: ReplayFrameState)
    ensures
        state_entries(*final(cache)) == lru_cache::after_put(
            state_entries(*old(cache)),
            state_capacity(*old(cache)),
            frame,
            state,
        ),
        state_capacity(*final(cache)) == state_capacity(*old(cache)),
{
    cache.put(frame, state);
}

/// `LruCache::get` returns the value under a key and makes its entry the most recent one.
#[verifier::external_body]
fn get_state(cache: &mut LruCache<usize, ReplayFrameState>, frame: usize) -> (r: Option<
    &ReplayFrameState,
>)
    ensures
        match r {
            Some(state) => lru_cache::lookup(state_entries(*old(cache)), frame) == Some(*state),
            None => lru_cache::lookup(state_entries(*old(cache)), frame) is None,
        },
        state_entries(*final(cache)) == lru_cache::after_get(state_entries(*old(cache)), frame),
        state_capacity(*final(cache)) == state_capacity(*old(cache)),
{
    cache.get(&frame)
}

/// `LruCache::iter` walks the entries from the most to the least recently used.
#[verifier::external_body]
fn list_states(cache: &LruCache<usize, ReplayFrameState>) -> (r: Vec<(usize, &ReplayFrameState)>)
    ensures
        r@.len() == state_entries(*cache).len(),
        forall|i: int|
            0 <= i < r@.len() ==> (#[trigger] r@[i]).0 == state_entries(*cache)[i].0 && *r@[i].1
                == state_entries(*cache)[i].1,
{
    cache.iter().map(|(frame, state)| (*frame, state)).collect()
}

/// `LruCache::clear` takes all entries out.
#[verifier::external_body]
fn clear_states(cache: &mut LruCache<usize, ReplayFrameState>)
    ensures
        state_entries(*final(cache)) == Seq::<(usize, ReplayFrameState)>::empty(),
        state_capacity(*final(cache)) == state_capacity(*old(cache)),
{
    cache.clear();
}

// ---------------------------------------------------------------------------
// The engine
// ---------------------------------------------------------------------------

/// What the user asked for since the last redraw.
#[derive(Clone, Copy, Debug, PartialEq, Eq, Structural)]
pub struct InputActions {
    pub quit: bool,
    pub toggle_pause: bool,
    pub speed_delta_steps: i32,
    pub refresh_file: bool,
}

/// What is shown of the playback.
#[derive(Clone, Copy, Debug, PartialEq, Eq, Structural)]
pub struct PlaybackStatus {
    pub frame_count: usize,
    pub current_frame: usize,
    pub speed_frames_per_half_second: i32,
    pub paused: bool,
}

/// The frame counts before and after a refresh.
#[derive(Clone, Copy, Debug, PartialEq, Eq, Structural)]
pub struct RefreshResult {
    pub previous_frame_count: usize,
    pub current_frame_count: usize,
}

/// Playback of a log.
pub struct ReplayEngine {
    frame_count: usize,
    current_frame: usize,
    play_speed_frames_per_half_second: i32,
    is_paused: bool,
    pause_at_end_resume_speed: i32,
    auto_paused_at_end: bool,
    state_cache: LruCache<usize, ReplayFrameState>,
}

/// The contents of a [`ReplayEngine`].
#[verifier::ext_equal]
pub struct EngineView {
    pub frame_count: usize,
    pub current_frame: usize,
    pub speed: i32,
    pub paused: bool,
    pub resume_speed: i32,
    pub auto_paused: bool,
    pub cached: Seq<(usize, ReplayView)>,
}

impl View for ReplayEngine {
    type V = EngineView;

    closed spec fn view(&self) -> EngineView {
        EngineView {
            frame_count: self.frame_count,
            current_frame: self.current_frame,
            speed: self.play_speed_frames_per_half_second,
            paused: self.is_paused,
            resume_speed: self.pause_at_end_resume_speed,
            auto_paused: self.auto_paused_at_end,
            cached: lru_cache::contents(state_entries(self.state_cache)),
        }
    }
}

impl EngineView {
    /// An engine at the first of `n` frames.
    pub open spec fn opened(n: usize) -> EngineView {
        EngineView {
            frame_count: n,
            current_frame: 0,
            speed: DEFAULT_SPEED_FRAMES_PER_HALF_SECOND,
            paused: false,
            resume_speed: DEFAULT_SPEED_FRAMES_PER_HALF_SECOND,
            auto_paused: false,
            cached: Seq::empty(),
        }
    }

    /// What every operation keeps: the current frame is one of the log, a paused playback stands
    /// still, and it resumes forward.
    pub open spec fn valid(self) -> bool {
        &&& self.frame_count == 0 ==> self.current_frame == 0
        &&& self.frame_count > 0 ==> self.current_frame < self.frame_count
        &&& self.paused ==> self.speed == 0
        &&& self.auto_paused ==> self.paused
        &&& self.resume_speed >= 1
    }

    /// The speed that the actions lead to.
    pub open spec fn speed_after(self, actions: InputActions) -> int {
        (if actions.toggle_pause {
            0
        } else {
            self.speed as int
        }) + actions.speed_delta_steps
    }

    /// The engine after the user's actions.
    pub open spec fn acted(self, actions: InputActions) -> EngineView {
        let stopped = if actions.toggle_pause {
            EngineView { paused: true, speed: 0, auto_paused: false, ..self }
        } else {
            self
        };
        if actions.speed_delta_steps != 0 {
            let speed = self.speed_after(actions) as i32;
            EngineView {
                speed,
                paused: false,
                auto_paused: false,
                resume_speed: if speed > 0 {
                    speed
                } else {
                    self.resume_speed
                },
                ..stopped
            }
        } else {
            stopped
        }
    }

    /// The playback stands on the last frame, or the log is empty.
    pub open spec fn at_last_frame(self) -> bool {
        self.frame_count == 0 || self.current_frame + 1 >= self.frame_count
    }

    /// The engine after a reload that found `n` frames. A playback that had stopped at the end
    /// goes on if there are more.
    pub open spec fn reloaded(self, n: usize) -> EngineView {
        let moved = EngineView {
            frame_count: n,
            current_frame: if n == 0 {
                0
            } else if self.current_frame >= n {
                (n - 1) as usize
            } else {
                self.current_frame
            },
            cached: Seq::empty(),
            ..self
        };
        if n > 0 && self.auto_paused && n > self.frame_count {
            EngineView { speed: self.resume_speed, paused: false, auto_paused: false, ..moved }
        } else {
            moved
        }
    }

    /// The engine after a reload that found `n` frames, if it stood on the last frame.
    pub open spec fn refreshed(self, n: usize) -> EngineView {
        if self.at_last_frame() {
            self.reloaded(n)
        } else {
            self
        }
    }

    /// The engine stopped at the last frame.
    pub open spec fn stopped_at_end(self) -> EngineView {
        EngineView {
            current_frame: (self.frame_count - 1) as usize,
            paused: true,
            auto_paused: true,
            resume_speed: if self.speed > 0 {
                self.speed
            } else {
                self.resume_speed
            },
            speed: 0,
            ..self
        }
    }
}

/// Where a move of the playback leads.
pub enum Plan {
    /// Nowhere.
    Stay,
    /// To this frame.
    To(int),
    /// To this frame, which is behind the last one.
    Past(int),
    /// The move cannot be computed.
    Fault(Seq<char>),
}

/// Where `delta` half seconds of playback lead.
pub open spec fn plan(engine: EngineView, delta: usize) -> Plan {
    let step = engine.speed * delta;
    let reached = engine.current_frame + step;
    let target = if reached < 0 {
        0
    } else {
        reached
    };
    if engine.paused || engine.speed == 0 || engine.frame_count == 0 || delta == 0 {
        Plan::Stay
    } else if delta > i64::MAX {
        Plan::Fault("delta_frames exceeds i64 range"@)
    } else if step < i64::MIN || step > i64::MAX {
        Plan::Fault("frame delta overflow"@)
    } else if engine.current_frame > i64::MAX {
        Plan::Fault("current_frame exceeds i64 range"@)
    } else if reached > i64::MAX {
        Plan::Fault("target frame overflow"@)
    } else if engine.frame_count - 1 > i64::MAX {
        Plan::Fault("frame_count exceeds i64 range"@)
    } else if target > engine.frame_count - 1 {
        Plan::Past(target)
    } else {
        Plan::To(target)
    }
}

/// How far a move has come.
#[derive(Clone, Copy, Debug, PartialEq, Eq, Structural)]
pub enum AdvancePhase {
    /// The log may have to be reloaded first.
    Start,
    /// The target is to be computed.
    Plan,
    /// The target was behind the last frame that was known.
    Land(i64),
    Done,
}

/// A move of the playback by some half seconds.
#[derive(Clone, Copy, Debug, PartialEq, Eq, Structural)]
pub struct Advance {
    pub delta_frames: usize,
    pub phase: AdvancePhase,
}

impl Advance {
    pub fn start(delta_frames: usize) -> (r: Advance)
        ensures
            r == (Advance { delta_frames, phase: AdvancePhase::Start }),
    {
        Advance { delta_frames, phase: AdvancePhase::Start }
    }
}

/// What one step of a move does to the engine and to the move, and whether the log is to be
/// reloaded before the next step.
pub enum StepView {
    Next { engine: EngineView, phase: AdvancePhase, reload: bool },
    Fault { text: Seq<char> },
}

pub open spec fn land_step(engine: EngineView, target: i64) -> StepView {
    if engine.frame_count - 1 > i64::MAX {
        StepView::Fault { text: "frame_count exceeds i64 range"@ }
    } else if target > engine.frame_count - 1 {
        StepView::Next {
            engine: engine.stopped_at_end(),
            phase: AdvancePhase::Done,
            reload: false,
        }
    } else {
        StepView::Next {
            engine: EngineView { current_frame: target as usize, ..engine },
            phase: AdvancePhase::Done,
            reload: false,
        }
    }
}

pub open spec fn plan_step(engine: EngineView, delta: usize) -> StepView {
    match plan(engine, delta) {
        Plan::Stay => StepView::Next { engine, phase: AdvancePhase::Done, reload: false },
        Plan::To(target) => StepView::Next {
            engine: EngineView { current_frame: target as usize, ..engine },
            phase: AdvancePhase::Done,
            reload: false,
        },
        Plan::Past(target) => if engine.at_last_frame() {
            StepView::Next { engine, phase: AdvancePhase::Land(target as i64), reload: true }
        } else {
            land_step(engine, target as i64)
        },
        Plan::Fault(text) => StepView::Fault { text },
    }
}

pub open spec fn advance_step(engine: EngineView, advance: Advance) -> StepView {
    match advance.phase {
        AdvancePhase::Start => if engine.at_last_frame() {
            StepView::Next { engine, phase: AdvancePhase::Plan, reload: true }
        } else {
            plan_step(engine, advance.delta_frames)
        },
        AdvancePhase::Plan => plan_step(engine, advance.delta_frames),
        AdvancePhase::Land(target) => land_step(engine, target),
        AdvancePhase::Done => StepView::Next { engine, phase: AdvancePhase::Done, reload: false },
    }
}

impl ReplayEngine {
    pub closed spec fn wf(self) -> bool {
        &&& self@.valid()
        &&& lru_cache::cache_entries_wf(
            state_entries(self.state_cache),
            state_capacity(self.state_cache),
        )
        &&& state_capacity(self.state_cache) == CACHE_CAPACITY
        &&& forall|i: int|
            0 <= i < state_entries(self.state_cache).len() ==> (#[trigger] state_entries(
                self.state_cache,
            )[i]).1.wf()
    }

    /// What is always true of an engine.
    pub proof fn lemma_wf(self)
        requires
            self.wf(),
        ensures
            self@.valid(),
            lru_cache::cache_entries_wf(self@.cached, CACHE_CAPACITY as nat),
    {
        let s = state_entries(self.state_cache);
        assert forall|i: int, j: int| 0 <= i < j < s.len() implies self@.cached[i].0
            != self@.cached[j].0 by {
            assert(s[i].0 != s[j].0);
        }
    }

    /// Playback of a log of `frame_count` frames, from its first one.
    pub fn open(frame_count: usize) -> (r: ReplayEngine)
        ensures
            r.wf(),
            r@ == EngineView::opened(frame_count),
    {
        let r = ReplayEngine {
            frame_count,
            current_frame: 0,
            play_speed_frames_per_half_second: DEFAULT_SPEED_FRAMES_PER_HALF_SECOND,
            is_paused: false,
            pause_at_end_resume_speed: DEFAULT_SPEED_FRAMES_PER_HALF_SECOND,
            auto_paused_at_end: false,
            state_cache: new_state_cache(CACHE_CAPACITY),
        };
        assert(r@.cached =~= Seq::<(usize, ReplayView)>::empty());
        r
    }

    /// Does what the user asked for.
    pub fn apply_actions(&mut self, actions: InputActions)
        requires
            old(self).wf(),
            i32::MIN <= old(self)@.speed_after(actions) <= i32::MAX,
        ensures
            final(self).wf(),
            final(self)@ == old(self)@.acted(actions),
    {
        if actions.toggle_pause {
            self.is_paused = true;
            self.play_speed_frames_per_half_second = 0;
            self.auto_paused_at_end = false;
        }
        if actions.speed_delta_steps != 0 {
            self.play_speed_frames_per_half_second = self.play_speed_frames_per_half_second
                + actions.speed_delta_steps * SPEED_STEP_FRAMES_PER_HALF_SECOND;
            self.is_paused = false;
            self.auto_paused_at_end = false;
            if self.play_speed_frames_per_half_second > 0 {
                self.pause_at_end_resume_speed = self.play_speed_frames_per_half_second;
            }
        }
    }

    /// Whether the actions lead to a speed that fits.
    pub fn can_apply(&self, actions: InputActions) -> (r: bool)
        ensures
            r == (i32::MIN <= self@.speed_after(actions) <= i32::MAX),
    {
        let speed: i64 = if actions.toggle_pause {
            0
        } else {
            self.play_speed_frames_per_half_second as i64
        };
        let after: i64 = speed + actions.speed_delta_steps as i64;
        i32::MIN as i64 <= after && after <= i32::MAX as i64
    }

    /// Takes over the number of frames that a reload of the log found.
    pub fn reload_frames(&mut self, frame_count: usize)
        requires
            old(self).wf(),
        ensures
            final(self).wf(),
            final(self)@ == old(self)@.reloaded(frame_count),
    {
        let previous_len: usize = self.frame_count;
        self.frame_count = frame_count;
        clear_states(&mut self.state_cache);
        assert(self@.cached =~= Seq::<(usize, ReplayView)>::empty());
        if self.frame_count == 0 {
            self.current_frame = 0;
            return;
        }
        if self.current_frame >= self.frame_count {
            self.current_frame = self.frame_count - 1;
        }
        if self.auto_paused_at_end && self.frame_count > previous_len {
            self.play_speed_frames_per_half_second = if self.pause_at_end_resume_speed > 1 {
                self.pause_at_end_resume_speed
            } else {
                1
            };
            self.is_paused = false;
            self.auto_paused_at_end = false;
        }
    }

    /// Takes over a reload that the user asked for, and says what came of it.
    pub fn force_refresh(&mut self, frame_count: usize) -> (r: RefreshResult)
        requires
            old(self).wf(),
        ensures
            final(self).wf(),
            final(self)@ == old(self)@.reloaded(frame_count),
            r.previous_frame_count == old(self)@.frame_count,
            r.current_frame_count == frame_count,
    {
        let previous_frame_count: usize = self.frame_count;
        self.reload_frames(frame_count);
        RefreshResult { previous_frame_count, current_frame_count: self.frame_count }
    }

    fn on_last_frame(&self) -> (r: bool)
        ensures
            r == self@.at_last_frame(),
    {
        self.frame_count == 0 || self.current_frame >= self.frame_count - 1
    }

    /// One step of a move. If it returns `Ok(true)`, the log is to be reloaded before the next
    /// step.
    pub fn advance(&mut self, advance: &mut Advance) -> (r: Result<bool, String>)
        requires
            old(self).wf(),
            old(advance).phase is Land ==> old(self)@.frame_count > 0 && old(
                advance,
            ).phase->Land_0 >= 0,
        ensures
            final(self).wf(),
            final(advance).delta_frames == old(advance).delta_frames,
            match advance_step(old(self)@, *old(advance)) {
                StepView::Next { engine, phase, reload } => {
                    &&& r == Ok::<bool, String>(reload)
                    &&& final(self)@ == engine
                    &&& final(advance).phase == phase
                },
                StepView::Fault { text } => {
                    &&& r is Err
                    &&& r->Err_0@ == text
                    &&& final(self)@ == old(self)@
                    &&& final(advance).phase == AdvancePhase::Done
                },
            },
            final(advance).phase is Land ==> final(advance).phase->Land_0 >= 0,
    {
        if let AdvancePhase::Done = advance.phase {
            return Ok(false);
        }
        if let AdvancePhase::Land(target) = advance.phase {
            advance.phase = AdvancePhase::Done;
            return self.land(target);
        }
        if let AdvancePhase::Start = advance.phase {
            if self.on_last_frame() {
                advance.phase = AdvancePhase::Plan;
                return Ok(true);
            }
        }
        advance.phase = AdvancePhase::Done;
        if self.is_paused || self.play_speed_frames_per_half_second == 0 || self.frame_count == 0
            || advance.delta_frames == 0 {
            return Ok(false);
        }
        if advance.delta_frames as u64 > i64::MAX as u64 {
            return Err("delta_frames exceeds i64 range".to_owned());
        }
        let speed: i64 = self.play_speed_frames_per_half_second as i64;
        let frame_delta = match speed.checked_mul(advance.delta_frames as i64) {
            Some(frame_delta) => frame_delta,
            None => {
                return Err("frame delta overflow".to_owned());
            },
        };
        if self.current_frame as u64 > i64::MAX as u64 {
            return Err("current_frame exceeds i64 range".to_owned());
        }
        let mut target = match (self.current_frame as i64).checked_add(frame_delta) {
            Some(target) => target,
            None => {
                return Err("target frame overflow".to_owned());
            },
        };
        if target < 0 {
            target = 0;
        }
        if (self.frame_count - 1) as u64 > i64::MAX as u64 {
            return Err("frame_count exceeds i64 range".to_owned());
        }
        if target > (self.frame_count - 1) as i64 {
            if self.on_last_frame() {
                advance.phase = AdvancePhase::Land(target);
                return Ok(true);
            }
            return self.land(target);
        }
        self.current_frame = target as usize;
        Ok(false)
    }

    fn land(&mut self, target: i64) -> (r: Result<bool, String>)
        requires
            old(self).wf(),
            old(self)@.frame_count > 0,
            target >= 0,
        ensures
            final(self).wf(),
            match land_step(old(self)@, target) {
                StepView::Next { engine, reload, .. } => {
                    &&& r == Ok::<bool, String>(reload)
                    &&& final(self)@ == engine
                },
                StepView::Fault { text } => {
                    &&& r is Err
                    &&& r->Err_0@ == text
                    &&& final(self)@ == old(self)@
                },
            },
    {
        if (self.frame_count - 1) as u64 > i64::MAX as u64 {
            return Err("frame_count exceeds i64 range".to_owned());
        }
        if target > (self.frame_count - 1) as i64 {
            self.current_frame = self.frame_count - 1;
            self.is_paused = true;
            self.auto_paused_at_end = true;
            if self.play_speed_frames_per_half_second > 0 {
                self.pause_at_end_resume_speed = self.play_speed_frames_per_half_second;
            }
            self.play_speed_frames_per_half_second = 0;
            return Ok(false);
        }
        self.current_frame = target as usize;
        Ok(false)
    }

    pub fn playback_status(&self) -> (r: PlaybackStatus)
        ensures
            r == (PlaybackStatus {
                frame_count: self@.frame_count,
                current_frame: self@.current_frame,
                speed_frames_per_half_second: self@.speed,
                paused: self@.paused,
            }),
    {
        PlaybackStatus {
            frame_count: self.frame_count,
            current_frame: self.current_frame,
            speed_frames_per_half_second: self.play_speed_frames_per_half_second,
            paused: self.is_paused,
        }
    }
}

/// The engine after a whole move, when every reload finds `n` frames.
pub open spec fn advanced(engine: EngineView, delta: usize, n: usize) -> Result<
    EngineView,
    Seq<char>,
> {
    let fresh = engine.refreshed(n);
    match plan(fresh, delta) {
        Plan::Stay => Ok(fresh),
        Plan::To(target) => Ok(EngineView { current_frame: target as usize, ..fresh }),
        Plan::Past(target) => {
            let end = fresh.refreshed(n);
            if target > end.frame_count - 1 {
                Ok(end.stopped_at_end())
            } else {
                Ok(EngineView { current_frame: target as usize, ..end })
            }
        },
        Plan::Fault(text) => Err(text),
    }
}

impl ReplayEngine {
    /// Moves the playback by `delta_frames` half seconds along a log that holds `log_len` frames.
    pub fn advance_over(&mut self, delta_frames: usize, log_len: usize) -> (r: Result<(), String>)
        requires
            old(self).wf(),
        ensures
            final(self).wf(),
            match advanced(old(self)@, delta_frames, log_len) {
                Ok(engine) => r is Ok && final(self)@ == engine,
                Err(text) => {
                    &&& r is Err
                    &&& r->Err_0@ == text
                    &&& final(self)@ == old(self)@.refreshed(log_len)
                },
            },
    {
        let mut advance = Advance::start(delta_frames);
        let reload = match self.advance(&mut advance) {
            Ok(reload) => reload,
            Err(text) => {
                return Err(text);
            },
        };
        if !reload {
            return Ok(());
        }
        self.reload_frames(log_len);
        let reload = match self.advance(&mut advance) {
            Ok(reload) => reload,
            Err(text) => {
                return Err(text);
            },
        };
        if !reload {
            return Ok(());
        }
        self.reload_frames(log_len);
        match self.advance(&mut advance) {
            Ok(_) => Ok(()),
            Err(text) => Err(text),
        }
    }
}

// ---------------------------------------------------------------------------
// The state at the current frame
// ---------------------------------------------------------------------------

/// The first `n` frames of a log.
pub open spec fn first_frames(frames: Seq<Option<FrameView>>, n: nat) -> Seq<FrameView> {
    Seq::new(n, |i: int| frames[i]->0)
}

/// The first `n` frames of a log are there.
pub open spec fn present(frames: Seq<Option<FrameView>>, n: nat) -> bool {
    &&& n <= frames.len()
    &&& forall|i: int| 0 <= i < n ==> (#[trigger] frames[i]) is Some
}

/// The number of the first missing frame from `from` on, or the length of the log.
pub open spec fn first_missing(frames: Seq<Option<FrameView>>, from: int) -> int
    decreases frames.len() - from,
{
    if 0 <= from < frames.len() && frames[from] is Some {
        first_missing(frames, from + 1)
    } else {
        from
    }
}

/// Every cached state is the one that replaying the log leads to.
pub open spec fn cache_true(
    cached: Seq<(usize, ReplayView)>,
    frames: Seq<Option<FrameView>>,
) -> bool {
    forall|i: int|
        0 <= i < cached.len() ==> {
            let n = ((#[trigger] cached[i]).0 + 1) as nat;
            present(frames, n) && cached[i].1 == replay_state::replayed(first_frames(frames, n))
        }
}

/// The cached state nearest before `target`, or none.
pub open spec fn best_anchor(cached: Seq<(usize, ReplayView)>, target: usize) -> Option<
    (usize, ReplayView),
>
    decreases cached.len(),
{
    if cached.len() == 0 {
        None
    } else {
        let before = best_anchor(cached.drop_last(), target);
        let e = cached.last();
        if e.0 <= target && (before is None || e.0 > (before->0).0) {
            Some(e)
        } else {
            before
        }
    }
}

proof fn lemma_best_anchor(cached: Seq<(usize, ReplayView)>, target: usize)
    ensures
        best_anchor(cached, target) is Some ==> {
            &&& cached.contains(best_anchor(cached, target)->0)
            &&& (best_anchor(cached, target)->0).0 <= target
        },
    decreases cached.len(),
{
    if cached.len() > 0 {
        let init = cached.drop_last();
        lemma_best_anchor(init, target);
        let b = best_anchor(init, target);
        if b is Some {
            let j = choose|j: int| 0 <= j < init.len() && init[j] == b->0;
            assert(cached[j] == b->0);
        }
        assert(cached[cached.len() - 1] == cached.last());
    }
}

/// A state that is being rebuilt: the state before frame `next`, on the way to `target`.
#[derive(Debug)]
pub struct StateBuild {
    pub state: ReplayFrameState,
    pub next: usize,
    pub target: usize,
}

impl StateBuild {
    pub open spec fn wf(self) -> bool {
        self.state.wf() && self.next <= self.target
    }
}

/// What is known of the state at the current frame.
#[derive(Debug)]
pub enum StateStep {
    /// The log has no frames.
    Empty,
    Ready(ReplayFrameState),
    /// The frame `next` is needed.
    Build(StateBuild),
}

impl ReplayEngine {
    /// Starts to find the state at the current frame.
    pub fn begin_state(&mut self) -> (r: StateStep)
        requires
            old(self).wf(),
        ensures
            final(self).wf(),
            final(self)@ == (EngineView { cached: final(self)@.cached, ..old(self)@ }),
            ({
                let cached = old(self)@.cached;
                let target = old(self)@.current_frame;
                match r {
                    StateStep::Empty => old(self)@.frame_count == 0 && final(self)@.cached
                        == cached,
                    StateStep::Ready(state) => {
                        &&& old(self)@.frame_count > 0
                        &&& state.wf()
                        &&& lru_cache::lookup(cached, target) == Some(state@)
                        &&& final(self)@.cached == lru_cache::after_get(cached, target)
                    },
                    StateStep::Build(build) => {
                        &&& old(self)@.frame_count > 0
                        &&& build.wf()
                        &&& build.target == target
                        &&& lru_cache::lookup(cached, target) is None
                        &&& final(self)@.cached == cached
                        &&& match best_anchor(cached, target) {
                            Some(e) => build.next == e.0 + 1 && build.state@ == e.1,
                            None => build.next == 0 && build.state@ == ReplayView::initial(),
                        }
                    },
                }
            }),
    {
        if self.frame_count == 0 {
            return StateStep::Empty;
        }
        let target: usize = self.current_frame;
        let ghost entries = state_entries(self.state_cache);
        let ghost before = *self;
        proof {
            lru_cache::get_keeps_entries(entries, state_capacity(self.state_cache), target);
            lru_cache::lemma_contents_lookup(entries, target);
            lru_cache::lemma_contents_after_get(entries, target);
            lru_cache::lemma_lookup(entries, target);
            lru_cache::lemma_lookup(self@.cached, target);
            lemma_best_anchor(self@.cached, target);
            let after = lru_cache::after_get(entries, target);
            assert forall|i: int| 0 <= i < after.len() implies (#[trigger] after[i]).1.wf() by {
                assert(entries.contains(after[i]));
                let j = choose|j: int| 0 <= j < entries.len() && entries[j] == after[i];
                assert(entries[j].1.wf());
            }
        }
        let hit = match get_state(&mut self.state_cache, target) {
            Some(state) => {
                proof {
                    let e = (target, *state);
                    let j = choose|j: int| 0 <= j < entries.len() && entries[j] == e;
                    assert(entries[j].1.wf());
                }
                Some(state.duplicate())
            },
            None => None,
        };
        if let Some(state) = hit {
            return StateStep::Ready(state);
        }
        let listed = list_states(&self.state_cache);
        let mut best: Option<usize> = None;
        let mut i: usize = 0;
        let ghost cached = before@.cached;
        while i < listed.len()
            invariant
                i <= listed@.len(),
                listed@.len() == cached.len(),
                forall|j: int|
                    0 <= j < listed@.len() ==> (#[trigger] listed@[j]).0 == cached[j].0
                        && listed@[j].1@ == cached[j].1,
                match best {
                    Some(b) => b < i && best_anchor(cached.take(i as int), target) == Some(
                        cached[b as int],
                    ),
                    None => best_anchor(cached.take(i as int), target) is None,
                },
            decreases listed@.len() - i,
        {
            assert(cached.take(i + 1).drop_last() =~= cached.take(i as int));
            assert(cached.take(i + 1).last() == cached[i as int]);
            let frame: usize = listed[i].0;
            let better = match best {
                Some(b) => frame > listed[b].0,
                None => true,
            };
            if frame <= target && better {
                best = Some(i);
            }
            i = i + 1;
        }
        assert(cached.take(cached.len() as int) =~= cached);
        match best {
            Some(b) => {
                proof {
                    assert(cached[b as int].0 != target);
                    assert(entries[b as int].1.wf());
                }
                StateStep::Build(
                    StateBuild { state: listed[b].1.duplicate(), next: listed[b].0 + 1, target },
                )
            },
            None => StateStep::Build(
                StateBuild { state: ReplayFrameState::default(), next: 0, target },
            ),
        }
    }

    /// Takes the frame that was needed, or learns that the log does not have it. In the latter
    /// case the log ends before that frame, and so does the playback.
    pub fn take_frame(&mut self, build: StateBuild, frame: Option<&ProgressLogFrame>) -> (r:
        StateStep)
        requires
            old(self).wf(),
            build.wf(),
            build.target == old(self)@.current_frame,
            old(self)@.frame_count > 0,
        ensures
            final(self).wf(),
            match frame {
                Some(f) => {
                    let state = build.state@.applied(f@);
                    &&& final(self)@ == (EngineView { cached: final(self)@.cached, ..old(self)@ })
                    &&& final(self)@.cached == (if build.next as int % CACHE_STRIDE as int == 0
                        || build.next == build.target {
                        lru_cache::after_put(
                            old(self)@.cached,
                            CACHE_CAPACITY as nat,
                            build.next,
                            state,
                        )
                    } else {
                        old(self)@.cached
                    })
                    &&& match r {
                        StateStep::Empty => false,
                        StateStep::Ready(s) => build.next == build.target && s.wf() && s@ == state,
                        StateStep::Build(b) => {
                            &&& build.next < build.target
                            &&& b.wf()
                            &&& b.next == build.next + 1
                            &&& b.target == build.target
                            &&& b.state@ == state
                        },
                    }
                },
                None => {
                    &&& final(self)@ == (EngineView {
                        frame_count: build.next,
                        current_frame: if build.next == 0 {
                            0
                        } else {
                            (build.next - 1) as usize
                        },
                        cached: if build.next == 0 {
                            Seq::empty()
                        } else {
                            seq![((build.next - 1) as usize, build.state@)]
                        },
                        ..old(self)@
                    })
                    &&& match r {
                        StateStep::Empty => build.next == 0,
                        StateStep::Ready(s) => build.next > 0 && s.wf() && s@ == build.state@,
                        StateStep::Build(_) => false,
                    }
                },
            },
    {
        let StateBuild { mut state, next, target } = build;
        match frame {
            None => {
                self.frame_count = next;
                clear_states(&mut self.state_cache);
                if self.frame_count == 0 {
                    self.current_frame = 0;
                    assert(self@.cached =~= Seq::<(usize, ReplayView)>::empty());
                    return StateStep::Empty;
                }
                if self.current_frame >= self.frame_count {
                    self.current_frame = self.frame_count - 1;
                }
                put_state(&mut self.state_cache, self.current_frame, state.duplicate());
                assert(self@.cached =~= seq![((next - 1) as usize, state@)]);
                StateStep::Ready(state)
            },
            Some(f) => {
                state.apply_frame(f);
                if next % CACHE_STRIDE == 0 || next == target {
                    let copy = state.duplicate();
                    proof {
                        let entries = state_entries(self.state_cache);
                        let cap = state_capacity(self.state_cache);
                        lru_cache::put_keeps_entries(entries, cap, next, copy);
                        lru_cache::lemma_contents_after_put(entries, cap, next, copy);
                        let after = lru_cache::after_put(entries, cap, next, copy);
                        assert forall|i: int| 0 <= i < after.len() implies (
                        #[trigger] after[i]).1.wf() by {
                            if after[i] != (next, copy) {
                                assert(entries.contains(after[i]));
                                let j = choose|j: int|
                                    0 <= j < entries.len() && entries[j] == after[i];
                                assert(entries[j].1.wf());
                            }
                        }
                    }
                    put_state(&mut self.state_cache, next, copy);
                }
                if next == target {
                    StateStep::Ready(state)
                } else {
                    StateStep::Build(StateBuild { state, next: next + 1, target })
                }
            },
        }
    }
}

/// The contents of the frames of a log.
pub open spec fn frame_views(frames: Seq<Option<ProgressLogFrame>>) -> Seq<Option<FrameView>> {
    frames.map_values(|f: Option<ProgressLogFrame>| progress_tui_logger::option_view(f))
}

/// The first missing frame is missing, and all frames before it are there.
pub proof fn lemma_first_missing(frames: Seq<Option<FrameView>>, from: int)
    requires
        0 <= from <= frames.len(),
    ensures
        from <= first_missing(frames, from) <= frames.len(),
        forall|i: int| from <= i < first_missing(frames, from) ==> (#[trigger] frames[i]) is Some,
        first_missing(frames, from) < frames.len() ==> frames[first_missing(frames, from)] is None,
    decreases frames.len() - from,
{
    if from < frames.len() && frames[from] is Some {
        lemma_first_missing(frames, from + 1);
    }
}

proof fn lemma_next_frame(frames: Seq<Option<FrameView>>, n: nat)
    requires
        n < frames.len(),
        frames[n as int] is Some,
    ensures
        replay_state::replayed(first_frames(frames, n + 1)) == replay_state::replayed(
            first_frames(frames, n),
        ).applied(frames[n as int]->0),
{
    let more = first_frames(frames, n + 1);
    assert(more.drop_last() =~= first_frames(frames, n));
}

proof fn lemma_put_cache_true(
    cached: Seq<(usize, ReplayView)>,
    frames: Seq<Option<FrameView>>,
    frame: usize,
)
    requires
        lru_cache::cache_entries_wf(cached, CACHE_CAPACITY as nat),
        cache_true(cached, frames),
        present(frames, (frame + 1) as nat),
    ensures
        cache_true(
            lru_cache::after_put(
                cached,
                CACHE_CAPACITY as nat,
                frame,
                replay_state::replayed(first_frames(frames, (frame + 1) as nat)),
            ),
            frames,
        ),
{
    let state = replay_state::replayed(first_frames(frames, (frame + 1) as nat));
    let after = lru_cache::after_put(cached, CACHE_CAPACITY as nat, frame, state);
    lru_cache::put_keeps_entries(cached, CACHE_CAPACITY as nat, frame, state);
    assert forall|i: int| 0 <= i < after.len() implies {
        let n = ((#[trigger] after[i]).0 + 1) as nat;
        present(frames, n) && after[i].1 == replay_state::replayed(first_frames(frames, n))
    } by {
        if after[i] != (frame, state) {
            assert(cached.contains(after[i]));
            let j = choose|j: int| 0 <= j < cached.len() && cached[j] == after[i];
            assert(cached[j] == after[i]);
        }
    }
}

proof fn lemma_get_cache_true(
    cached: Seq<(usize, ReplayView)>,
    frames: Seq<Option<FrameView>>,
    frame: usize,
)
    requires
        lru_cache::cache_entries_wf(cached, CACHE_CAPACITY as nat),
        cache_true(cached, frames),
    ensures
        cache_true(lru_cache::after_get(cached, frame), frames),
        lru_cache::lookup(cached, frame) is Some ==> {
            &&& present(frames, (frame + 1) as nat)
            &&& lru_cache::lookup(cached, frame)->0 == replay_state::replayed(
                first_frames(frames, (frame + 1) as nat),
            )
        },
        best_anchor(cached, frame) is Some ==> {
            let e = best_anchor(cached, frame)->0;
            &&& present(frames, (e.0 + 1) as nat)
            &&& e.1 == replay_state::replayed(first_frames(frames, (e.0 + 1) as nat))
        },
{
    let after = lru_cache::after_get(cached, frame);
    lru_cache::get_keeps_entries(cached, CACHE_CAPACITY as nat, frame);
    lru_cache::lemma_lookup(cached, frame);
    lemma_best_anchor(cached, frame);
    assert forall|i: int| 0 <= i < after.len() implies {
        let n = ((#[trigger] after[i]).0 + 1) as nat;
        present(frames, n) && after[i].1 == replay_state::replayed(first_frames(frames, n))
    } by {
        assert(cached.contains(after[i]));
        let j = choose|j: int| 0 <= j < cached.len() && cached[j] == after[i];
        assert(cached[j] == after[i]);
    }
    if lru_cache::lookup(cached, frame) is Some {
        let e = (frame, lru_cache::lookup(cached, frame)->0);
        let j = choose|j: int| 0 <= j < cached.len() && cached[j] == e;
        assert(cached[j] == e);
    }
    if best_anchor(cached, frame) is Some {
        let e = best_anchor(cached, frame)->0;
        let j = choose|j: int| 0 <= j < cached.len() && cached[j] == e;
        assert(cached[j] == e);
    }
}

impl ReplayEngine {
    /// The state at the current frame of a log held in memory. Whatever is cached, it is the
    /// state that replaying the log from its start leads to. Where a frame is missing, the log
    /// and the playback end before it.
    pub fn current_frame_state(&mut self, frames: &Vec<Option<ProgressLogFrame>>) -> (r: Option<
        ReplayFrameState,
    >)
        requires
            old(self).wf(),
            old(self)@.frame_count <= frames@.len(),
            cache_true(old(self)@.cached, frame_views(frames@)),
        ensures
            final(self).wf(),
            cache_true(final(self)@.cached, frame_views(frames@)),
            ({
                let log = frame_views(frames@);
                let current = old(self)@.current_frame;
                let end = first_missing(log, 0);
                if old(self)@.frame_count == 0 {
                    r is None && final(self)@ == old(self)@
                } else if current < end {
                    &&& r is Some
                    &&& r->0.wf()
                    &&& r->0@ == replay_state::replayed(first_frames(log, (current + 1) as nat))
                    &&& final(self)@ == (EngineView { cached: final(self)@.cached, ..old(self)@ })
                } else {
                    &&& final(self)@ == (EngineView {
                        frame_count: end as usize,
                        current_frame: if end == 0 {
                            0
                        } else {
                            (end - 1) as usize
                        },
                        cached: final(self)@.cached,
                        ..old(self)@
                    })
                    &&& (r is None) == (end == 0)
                    &&& r is Some ==> r->0.wf() && r->0@ == replay_state::replayed(
                        first_frames(log, end as nat),
                    )
                }
            }),
    {
        let ghost log = frame_views(frames@);
        let ghost before = self@;
        proof {
            self.lemma_wf();
            lemma_get_cache_true(self@.cached, log, self@.current_frame);
            lemma_first_missing(log, 0);
        }
        let mut build = match self.begin_state() {
            StateStep::Empty => {
                return None;
            },
            StateStep::Ready(state) => {
                return Some(state);
            },
            StateStep::Build(build) => build,
        };
        proof {
            if build.next == 0 {
                assert(first_frames(log, 0) =~= Seq::<FrameView>::empty());
            }
        }
        loop
            invariant
                log == frame_views(frames@),
                self.wf(),
                before == old(self)@,
                before.frame_count > 0,
                before.frame_count <= frames@.len(),
                before.valid(),
                self@ == (EngineView { cached: self@.cached, ..before }),
                cache_true(self@.cached, log),
                build.wf(),
                build.target == before.current_frame,
                present(log, build.next as nat),
                build.state@ == replay_state::replayed(first_frames(log, build.next as nat)),
                0 <= first_missing(log, 0) <= log.len(),
                forall|i: int|
                    0 <= i < first_missing(log, 0) ==> (#[trigger] log[i]) is Some,
                first_missing(log, 0) < log.len() ==> log[first_missing(log, 0)] is None,
            decreases build.target - build.next,
        {
            let next: usize = build.next;
            let ghost cached = self@.cached;
            proof {
                self.lemma_wf();
                assert(log[next as int] == progress_tui_logger::option_view(frames@[next as int]));
                if log[next as int] is Some {
                    lemma_next_frame(log, next as nat);
                    assert(present(log, (next + 1) as nat));
                    lemma_put_cache_true(cached, log, next);
                    assert(next < first_missing(log, 0)) by {
                        if first_missing(log, 0) <= next {
                            assert(log[first_missing(log, 0)] is Some);
                        }
                    }
                } else {
                    assert(first_missing(log, 0) == next) by {
                        if first_missing(log, 0) < next {
                            assert(log[first_missing(log, 0)] is Some);
                        }
                    }
                }
            }
            let step = match &frames[next] {
                Some(frame) => self.take_frame(build, Some(frame)),
                None => self.take_frame(build, None),
            };
            match step {
                StateStep::Empty => {
                    return None;
                },
                StateStep::Ready(state) => {
                    return Some(state);
                },
                StateStep::Build(b) => {
                    build = b;
                },
            }
        }
    }
}

// ---------------------------------------------------------------------------
// Laws
// ---------------------------------------------------------------------------

/// Whatever the user does, the playback stays on a frame of the log, stands still while it is
/// paused, and resumes forward.
pub proof fn actions_keep_playback_valid(engine: EngineView, actions: InputActions)
    requires
        engine.valid(),
        i32::MIN <= engine.speed_after(actions) <= i32::MAX,
    ensures
        engine.acted(actions).valid(),
        engine.acted(actions).current_frame == engine.current_frame,
        engine.acted(actions).frame_count == engine.frame_count,
{
}

/// A reload keeps the playback on a frame of the log, and on the same one if the log still has
/// it.
pub proof fn reload_keeps_playback_valid(engine: EngineView, n: usize)
    requires
        engine.valid(),
    ensures
        engine.reloaded(n).valid(),
        engine.reloaded(n).frame_count == n,
        engine.current_frame < n ==> engine.reloaded(n).current_frame == engine.current_frame,
{
}

/// A move keeps the playback on a frame of the log. It stops there only when it went past the
/// end, and then stands on the last frame.
pub proof fn advance_keeps_playback_valid(engine: EngineView, delta: usize, n: usize)
    requires
        engine.valid(),
        advanced(engine, delta, n) is Ok,
    ensures
        advanced(engine, delta, n)->Ok_0.valid(),
        !engine.paused && advanced(engine, delta, n)->Ok_0.paused ==> {
            let e = advanced(engine, delta, n)->Ok_0;
            e.auto_paused && e.current_frame == e.frame_count - 1
        },
{
}

/// A playback that stopped at the end of the log by itself goes on, at its old speed, when the
/// log has grown.
pub proof fn playback_resumes_on_growth(engine: EngineView, n: usize)
    requires
        engine.valid(),
        engine.frame_count > 0,
        engine.speed > 0,
        n > engine.frame_count,
    ensures
        engine.stopped_at_end().auto_paused,
        !engine.stopped_at_end().reloaded(n).paused,
        engine.stopped_at_end().reloaded(n).speed == engine.speed,
        engine.stopped_at_end().reloaded(n).current_frame == engine.frame_count - 1,
{
}

/// What counts of a playback, but for the frame on which it stands and what is cached.
pub open spec fn same_mode(a: EngineView, b: EngineView) -> bool {
    &&& a.speed == b.speed
    &&& a.paused == b.paused
    &&& a.resume_speed == b.resume_speed
    &&& a.auto_paused == b.auto_paused
}

/// A playback starts on the first frame, at one frame per half second.
pub proof fn playback_starts_at_the_first_frame(n: usize)
    ensures
        EngineView::opened(n).frame_count == n,
        EngineView::opened(n).current_frame == 0,
        EngineView::opened(n).speed == 1,
        EngineView::opened(n).resume_speed == 1,
        !EngineView::opened(n).paused,
        !EngineView::opened(n).auto_paused,
        EngineView::opened(n).cached.len() == 0,
{
}

/// In the middle of a log a move adds, to the number of the frame, the speed for every half
/// second, forward or backward. A move that would lead before the first frame ends on the first.
/// A move that would lead behind the last frame ends on the last, where the playback stops by
/// itself and remembers its speed.
pub proof fn playback_moves_by_its_speed(engine: EngineView, delta: usize, n: usize)
    requires
        engine.valid(),
        !engine.paused,
        engine.current_frame + 1 < engine.frame_count,
        engine.frame_count <= i64::MAX,
        delta <= i64::MAX,
        i64::MIN <= engine.speed * delta <= i64::MAX,
        engine.current_frame + engine.speed * delta <= i64::MAX,
    ensures
        advanced(engine, delta, n) is Ok,
        ({
            let reached = engine.current_frame + engine.speed * delta;
            let after = advanced(engine, delta, n)->Ok_0;
            &&& after.frame_count == engine.frame_count
            &&& after.cached == engine.cached
            &&& 0 <= reached < engine.frame_count ==> after.current_frame == reached && same_mode(
                after,
                engine,
            )
            &&& reached < 0 ==> after.current_frame == 0 && same_mode(after, engine)
            &&& reached >= engine.frame_count ==> {
                &&& after.current_frame == engine.frame_count - 1
                &&& after.paused
                &&& after.auto_paused
                &&& after.speed == 0
                &&& after.resume_speed == engine.speed
            }
        }),
{
    assert(engine.speed == 0 || delta == 0 ==> engine.speed * delta == 0) by (nonlinear_arith);
    assert(engine.speed < 0 ==> engine.speed * delta <= 0) by (nonlinear_arith);
}

/// At the end of a log a move first looks how many frames there are now, and then goes on from
/// the frame on which it stood, or from the last one if that frame is gone.
pub proof fn playback_at_the_end_follows_the_log(engine: EngineView, delta: usize, n: usize)
    requires
        engine.valid(),
        engine.current_frame + 1 >= engine.frame_count,
        n <= i64::MAX,
        delta <= i64::MAX,
        i64::MIN <= engine.speed * delta <= i64::MAX,
        engine.current_frame + engine.speed * delta <= i64::MAX,
        i64::MIN <= engine.resume_speed * delta <= i64::MAX,
        engine.current_frame + engine.resume_speed * delta <= i64::MAX,
    ensures
        advanced(engine, delta, n) is Ok,
        ({
            let after = advanced(engine, delta, n)->Ok_0;
            let resumes = engine.auto_paused && n > engine.frame_count;
            let speed = if resumes {
                engine.resume_speed
            } else {
                engine.speed
            };
            let from = if engine.current_frame < n {
                engine.current_frame as int
            } else {
                n - 1
            };
            let reached = from + speed * delta;
            &&& after.frame_count == n
            &&& n == 0 ==> after.current_frame == 0 && same_mode(after, engine)
            &&& n > 0 && engine.paused && !resumes ==> after.current_frame == from && same_mode(
                after,
                engine,
            )
            &&& n > 0 && (!engine.paused || resumes) && 0 <= reached < n ==> {
                &&& after.current_frame == reached
                &&& after.speed == speed
                &&& !after.paused
                &&& !after.auto_paused
                &&& after.resume_speed == engine.resume_speed
            }
            &&& n > 0 && (!engine.paused || resumes) && reached < 0 ==> {
                &&& after.current_frame == 0
                &&& after.speed == speed
                &&& !after.paused
            }
            &&& n > 0 && (!engine.paused || resumes) && reached >= n ==> {
                &&& after.current_frame == n - 1
                &&& after.paused
                &&& after.auto_paused
                &&& after.speed == 0
                &&& after.resume_speed == speed
            }
        }),
{
    assert(engine.speed == 0 || delta == 0 ==> engine.speed * delta == 0) by (nonlinear_arith);
    assert(delta == 0 ==> engine.resume_speed * delta == 0) by (nonlinear_arith);
    assert(engine.speed > 0 ==> engine.speed * delta >= 0) by (nonlinear_arith);
    assert(engine.speed < 0 ==> engine.speed * delta <= 0) by (nonlinear_arith);
}

/// A playback that the user paused stands still in the middle of a log, however much time passes.
pub proof fn paused_playback_stands_still(engine: EngineView, delta: usize, n: usize)
    requires
        engine.valid(),
        engine.paused,
        engine.current_frame + 1 < engine.frame_count,
    ensures
        advanced(engine, delta, n) == Ok::<EngineView, Seq<char>>(engine),
{
}

/// Two moves in the middle of a log are one long move, as long as all stay inside the log.
pub proof fn moves_add_up(engine: EngineView, first: usize, second: usize, both: usize, n: usize)
    requires
        engine.valid(),
        !engine.paused,
        both == first + second,
        engine.frame_count <= i32::MAX,
        both <= i32::MAX,
        engine.current_frame + 1 < engine.frame_count,
        0 <= engine.current_frame + engine.speed * first < engine.frame_count - 1,
        0 <= engine.current_frame + engine.speed * both < engine.frame_count,
    ensures
        advanced(engine, first, n) is Ok,
        advanced(advanced(engine, first, n)->Ok_0, second, n) == advanced(engine, both, n),
{
    let speed = engine.speed as int;
    assert(speed * both == speed * first + speed * second) by (nonlinear_arith)
        requires
            both == first + second,
    ;
    playback_moves_by_its_speed(engine, first, n);
    playback_moves_by_its_speed(engine, both, n);
    let middle = advanced(engine, first, n)->Ok_0;
    playback_moves_by_its_speed(middle, second, n);
    assert(advanced(middle, second, n)->Ok_0 =~= advanced(engine, both, n)->Ok_0);
}

/// The pause key stops a playback. The arrow keys change its speed by one frame per half second
/// for each step, counted from a stop where the pause key was pressed too, and set it going.
pub proof fn actions_set_the_speed(engine: EngineView, actions: InputActions)
    requires
        engine.valid(),
        i32::MIN <= (if actions.toggle_pause {
            0
        } else {
            engine.speed as int
        }) + actions.speed_delta_steps <= i32::MAX,
    ensures
        i32::MIN <= engine.speed_after(actions) <= i32::MAX,
        ({
            let after = engine.acted(actions);
            let steps = actions.speed_delta_steps;
            &&& after.frame_count == engine.frame_count
            &&& after.current_frame == engine.current_frame
            &&& after.cached == engine.cached
            &&& steps == 0 && !actions.toggle_pause ==> after == engine
            &&& steps == 0 && actions.toggle_pause ==> {
                &&& after.paused
                &&& after.speed == 0
                &&& !after.auto_paused
                &&& after.resume_speed == engine.resume_speed
            }
            &&& steps != 0 ==> {
                &&& !after.paused
                &&& !after.auto_paused
                &&& !actions.toggle_pause ==> after.speed == engine.speed + steps
                &&& actions.toggle_pause ==> after.speed == steps
                &&& after.speed > 0 ==> after.resume_speed == after.speed
                &&& after.speed <= 0 ==> after.resume_speed == engine.resume_speed
            }
        }),
{
}

/// A speed that does not fit is told from one that does.
pub proof fn speeds_that_fit(engine: EngineView, actions: InputActions)
    ensures
        engine.speed_after(actions) == actions.speed_delta_steps + (if actions.toggle_pause {
            0
        } else {
            engine.speed as int
        }),
{
}

/// A reload takes the new number of frames, forgets what was cached, moves the playback only if
/// its frame is gone, and sets it going only if it had stopped at the end and there are more.
pub proof fn reload_moves_only_what_it_must(engine: EngineView, n: usize)
    requires
        engine.valid(),
    ensures
        ({
            let after = engine.reloaded(n);
            &&& after.frame_count == n
            &&& after.cached.len() == 0
            &&& engine.current_frame < n ==> after.current_frame == engine.current_frame
            &&& 0 < n <= engine.current_frame ==> after.current_frame == n - 1
            &&& n == 0 ==> after.current_frame == 0
            &&& after.resume_speed == engine.resume_speed
            &&& engine.auto_paused && n > engine.frame_count ==> {
                &&& after.speed == engine.resume_speed
                &&& !after.paused
                &&& !after.auto_paused
            }
            &&& !(engine.auto_paused && n > engine.frame_count) ==> same_mode(after, engine)
        }),
{
}

/// A move of ordinary size never fails.
pub proof fn ordinary_moves_succeed(engine: EngineView, delta: usize, n: usize)
    requires
        engine.valid(),
        delta <= u32::MAX,
        engine.frame_count <= u32::MAX,
        n <= u32::MAX,
    ensures
        advanced(engine, delta, n) is Ok,
{
    let low = -0x8000_0000int * 0xffff_ffff;
    let high = 0x7fff_ffffint * 0xffff_ffff;
    assert(low <= engine.speed * delta <= high) by (nonlinear_arith)
        requires
            -0x8000_0000 <= engine.speed <= 0x7fff_ffff,
            0 <= delta <= 0xffff_ffff,
            low == -0x8000_0000int * 0xffff_ffff,
            high == 0x7fff_ffffint * 0xffff_ffff,
    ;
    assert(low <= engine.resume_speed * delta <= high) by (nonlinear_arith)
        requires
            -0x8000_0000 <= engine.resume_speed <= 0x7fff_ffff,
            0 <= delta <= 0xffff_ffff,
            low == -0x8000_0000int * 0xffff_ffff,
            high == 0x7fff_ffffint * 0xffff_ffff,
    ;
    if engine.current_frame + 1 < engine.frame_count {
        if engine.paused {
            paused_playback_stands_still(engine, delta, n);
        } else {
            playback_moves_by_its_speed(engine, delta, n);
        }
    } else {
        playback_at_the_end_follows_the_log(engine, delta, n);
    }
}

/// The steps of a move say when the log is to be reloaded: where the playback stands at the end,
/// before the move, and again where the move would lead behind the end.
pub proof fn moves_reload_only_at_the_end(engine: EngineView, delta: usize)
    requires
        engine.valid(),
    ensures
        ({
            let start = Advance { delta_frames: delta, phase: AdvancePhase::Start };
            let step = advance_step(engine, start);
            &&& engine.current_frame + 1 >= engine.frame_count ==> {
                &&& step is Next
                &&& step->reload
                &&& step->phase == AdvancePhase::Plan
                &&& step->engine == engine
            }
            &&& engine.current_frame + 1 < engine.frame_count && step is Next ==> !step->reload
                && step->phase == AdvancePhase::Done
        }),
        ({
            let done = Advance { delta_frames: delta, phase: AdvancePhase::Done };
            advance_step(engine, done) == (StepView::Next {
                engine,
                phase: AdvancePhase::Done,
                reload: false,
            })
        }),
{
}

/// The first frames of a log are those of the log, in order.
pub proof fn first_frames_are_those_of_the_log(frames: Seq<Option<FrameView>>, n: nat, i: int)
    requires
        present(frames, n),
        0 <= i < n,
    ensures
        first_frames(frames, n).len() == n,
        frames[i] == Some(first_frames(frames, n)[i]),
{
    assert(frames[i] is Some);
}

/// Playback begins at one frame per half second, and an arrow changes that by one. Every twentieth
/// state is kept, and forty-eight of them.
pub proof fn playback_begins_at_one_frame()
    ensures
        DEFAULT_SPEED_FRAMES_PER_HALF_SECOND == 1,
        SPEED_STEP_FRAMES_PER_HALF_SECOND == 1,
        CACHE_STRIDE == 20,
        CACHE_CAPACITY == 48,
{
}

/// The cached state from which a state is rebuilt stands no later than its frame, and no cached
/// state stands between the two.
pub proof fn states_are_rebuilt_from_the_nearest(
    cached: Seq<(usize, ReplayView)>,
    target: usize,
    i: int,
)
    requires
        0 <= i < cached.len(),
        cached[i].0 <= target,
    ensures
        best_anchor(cached, target) is Some,
        cached[i].0 <= (best_anchor(cached, target)->0).0 <= target,
        cached.contains(best_anchor(cached, target)->0),
    decreases cached.len(),
{
    lemma_best_anchor(cached, target);
    if i < cached.len() - 1 {
        let init = cached.drop_last();
        assert(init[i] == cached[i]);
        states_are_rebuilt_from_the_nearest(init, target, i);
    } else {
        lemma_best_anchor(cached.drop_last(), target);
    }
}

/// A move that leads behind the last frame, from that frame, asks for a reload before it stops:
/// once before it is computed, and once more where the log has not grown far enough. A move from
/// any other frame asks for none.
pub proof fn moves_behind_the_end_ask_for_more(engine: EngineView, delta: usize)
    requires
        engine.valid(),
        !engine.paused,
        engine.speed > 0,
        0 < delta <= 0x7fff_ffff,
        0 < engine.frame_count <= 0x7fff_ffff,
    ensures
        ({
            let start = advance_step(
                engine,
                Advance { delta_frames: delta, phase: AdvancePhase::Start },
            );
            let next = advance_step(
                engine,
                Advance { delta_frames: delta, phase: AdvancePhase::Plan },
            );
            &&& start is Next
            &&& next is Next
            &&& engine.current_frame + 1 == engine.frame_count ==> {
                &&& start->reload
                &&& start->engine == engine
                &&& start->phase == AdvancePhase::Plan
                &&& next->reload
                &&& next->engine == engine
                &&& next->phase == AdvancePhase::Land(
                    (engine.current_frame + engine.speed * delta) as i64,
                )
            }
            &&& engine.current_frame + 1 < engine.frame_count ==> {
                &&& start == next
                &&& !next->reload
                &&& next->phase == AdvancePhase::Done
            }
        }),
{
    let speed = engine.speed as int;
    let d = delta as int;
    assert(0 < speed <= 0x7fff_ffff && 0 < d <= 0x7fff_ffff ==> 0 < speed * d <= 0x7fff_ffff
        * 0x7fff_ffff) by (nonlinear_arith);
}

/// A move that cannot be computed tells why.
pub proof fn impossible_moves_tell_why(engine: EngineView, delta: usize)
    requires
        !engine.paused,
        engine.speed != 0,
        engine.frame_count > 0,
        delta > 0,
    ensures
        delta > 0x7fff_ffff_ffff_ffff ==> plan(engine, delta) == Plan::Fault(
            "delta_frames exceeds i64 range"@,
        ),
        delta <= 0x7fff_ffff_ffff_ffff && !(-0x8000_0000_0000_0000 <= engine.speed * delta
            <= 0x7fff_ffff_ffff_ffff) ==> plan(engine, delta) == Plan::Fault(
            "frame delta overflow"@,
        ),
        delta <= 0x7fff_ffff_ffff_ffff && -0x8000_0000_0000_0000 <= engine.speed * delta
            <= 0x7fff_ffff_ffff_ffff && engine.current_frame > 0x7fff_ffff_ffff_ffff ==> plan(
            engine,
            delta,
        ) == Plan::Fault("current_frame exceeds i64 range"@),
        delta <= 0x7fff_ffff_ffff_ffff && -0x8000_0000_0000_0000 <= engine.speed * delta
            <= 0x7fff_ffff_ffff_ffff && engine.current_frame <= 0x7fff_ffff_ffff_ffff
            && engine.current_frame + engine.speed * delta > 0x7fff_ffff_ffff_ffff ==> plan(
            engine,
            delta,
        ) == Plan::Fault("target frame overflow"@),
{
}

}
