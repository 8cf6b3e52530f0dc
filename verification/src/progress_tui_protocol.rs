//! What a progress display shows, and the messages between a progress server and its clients.

use crate::decimal;
use crate::float_bits::Float32;
use crate::message::TuiMessage;
use crate::text;
use crate::text_map::{Duplicate, TextMap};
use vstd::prelude::*;

verus! {

/// Where a progress server listens if nothing else is configured.
pub const DEFAULT_PROGRESS_SCREEN_TCP_ADDR: &'static str = "127.0.0.1:7878";

/// The environment variable with the address of the progress server.
pub const PROGRESS_SCREEN_TCP_ADDR_ENV: &'static str = "RESEARCH_UTILITY_PROGRESS_TUI_ADDR";

/// The largest message on the wire, in bytes.
pub const MAX_WIRE_MESSAGE_BYTES: usize = 16_777_216;

/// The window name of a display that was given none.
pub const DEFAULT_WINDOW_NAME: &'static str = "Progress Screen";

/// What a client shows when its server is gone.
pub const SERVER_DISCONNECTED_HINT: &'static str = "Server disconnected. Ctrl+C to exit.";

/// The label of a gauge that stands at zero.
pub const ZERO_LABEL: &'static str = "0%";

/// How far something has come.
#[derive(Debug)]
pub struct ProgressGaugeState {
    pub progress: Float32,
    pub label: String,
}

/// The contents of a gauge.
#[verifier::ext_equal]
pub struct GaugeView {
    pub progress: Float32,
    pub label: Seq<char>,
}

impl View for ProgressGaugeState {
    type V = GaugeView;

    open spec fn view(&self) -> GaugeView {
        GaugeView { progress: self.progress, label: self.label@ }
    }
}

impl Duplicate for ProgressGaugeState {
    fn duplicate(&self) -> (r: Self) {
        ProgressGaugeState { progress: self.progress, label: self.label.clone() }
    }
}

impl GaugeView {
    /// The two gauges compare as equal.
    pub open spec fn same(self, other: GaugeView) -> bool {
        self.progress.same_value(other.progress) && self.label == other.label
    }

    pub open spec fn zero() -> GaugeView {
        GaugeView { progress: Float32 { bits: 0 }, label: ZERO_LABEL@ }
    }
}

impl ProgressGaugeState {
    /// A gauge that stands at zero.
    pub fn zero() -> (r: ProgressGaugeState)
        ensures
            r@ == GaugeView::zero(),
    {
        ProgressGaugeState { progress: Float32::zero(), label: ZERO_LABEL.to_owned() }
    }

    pub fn equals(&self, other: &ProgressGaugeState) -> (r: bool)
        ensures
            r == self@.same(other@),
    {
        self.progress.equals(other.progress) && text::same_text(
            self.label.as_str(),
            other.label.as_str(),
        )
    }
}

/// The state that a progress display shows.
#[derive(Debug)]
pub struct ProgressStats {
    pub state: String,
    pub window_name: String,
    pub exit_hint: String,
    pub key_values: TextMap<String>,
    pub worker_progress: TextMap<ProgressGaugeState>,
    pub master_progress: ProgressGaugeState,
}

/// The contents of a [`ProgressStats`].
#[verifier::ext_equal]
pub struct StatsView {
    pub state: Seq<char>,
    pub window_name: Seq<char>,
    pub exit_hint: Seq<char>,
    pub key_values: Map<Seq<char>, Seq<char>>,
    pub worker_progress: Map<Seq<char>, GaugeView>,
    pub master_progress: GaugeView,
}

impl View for ProgressStats {
    type V = StatsView;

    open spec fn view(&self) -> StatsView {
        StatsView {
            state: self.state@,
            window_name: self.window_name@,
            exit_hint: self.exit_hint@,
            key_values: self.key_values@,
            worker_progress: self.worker_progress@,
            master_progress: self.master_progress@,
        }
    }
}

impl StatsView {
    /// The state before any message, with the given window name and exit hint.
    pub open spec fn initial(window_name: Seq<char>, exit_hint: Seq<char>) -> StatsView {
        StatsView {
            state: Seq::empty(),
            window_name,
            exit_hint,
            key_values: Map::empty(),
            worker_progress: Map::empty(),
            master_progress: GaugeView::zero(),
        }
    }

    /// The state after a message.
    pub open spec fn applied(self, message: TuiMessage) -> StatsView {
        match message {
            TuiMessage::Line { .. } => self,
            TuiMessage::State { state } => StatsView { state: state@, ..self },
            TuiMessage::WindowName { window_name } => StatsView {
                window_name: window_name@,
                ..self
            },
            TuiMessage::KeyValuePair { key, value } => StatsView {
                key_values: self.key_values.insert(key@, value@),
                ..self
            },
            TuiMessage::WorkerProgress { worker_name, progress, label } => StatsView {
                worker_progress: self.worker_progress.insert(
                    worker_name@,
                    GaugeView { progress, label: label@ },
                ),
                ..self
            },
            TuiMessage::MasterProgress { progress, label } => StatsView {
                master_progress: GaugeView { progress, label: label@ },
                ..self
            },
            TuiMessage::DeleteWorkerBar { worker_name } => StatsView {
                worker_progress: self.worker_progress.remove(worker_name@),
                ..self
            },
            TuiMessage::ExitHint(hint) => StatsView { exit_hint: hint@, ..self },
        }
    }

    /// Every gauge stands between 0 and 1.
    pub open spec fn in_range(self) -> bool {
        &&& self.master_progress.progress.in_unit_range()
        &&& forall|name: Seq<char>|
            #![trigger self.worker_progress[name]]
            self.worker_progress.contains_key(name)
                ==> self.worker_progress[name].progress.in_unit_range()
    }
}

/// A display after a series of messages.
pub open spec fn after_messages(stats: StatsView, messages: Seq<TuiMessage>) -> StatsView
    decreases messages.len(),
{
    if messages.len() == 0 {
        stats
    } else {
        after_messages(stats, messages.drop_last()).applied(messages.last())
    }
}

/// Every gauge of a display stands between 0 and 1, whatever messages it gets.
pub proof fn messages_keep_gauges_in_range(stats: StatsView, message: TuiMessage)
    requires
        stats.in_range(),
        message.in_range(),
    ensures
        stats.applied(message).in_range(),
{
}

/// No message takes a key away.
pub proof fn messages_keep_keys(stats: StatsView, message: TuiMessage)
    ensures
        stats.key_values.dom().subset_of(stats.applied(message).key_values.dom()),
{
}

/// A message that a worker is gone undoes the worker's progress messages, but for the place that
/// the worker had before.
pub proof fn delete_undoes_worker_progress(
    stats: StatsView,
    progress: TuiMessage,
    deletion: TuiMessage,
)
    requires
        progress is WorkerProgress,
        deletion is DeleteWorkerBar,
        progress->WorkerProgress_worker_name@ == deletion->DeleteWorkerBar_worker_name@,
    ensures
        stats.applied(progress).applied(deletion) == stats.applied(deletion),
{
    let name = progress->WorkerProgress_worker_name@;
    assert(stats.applied(progress).worker_progress.remove(name)
        =~= stats.worker_progress.remove(name));
}

/// A message takes effect at once: what it tells is what the display holds afterwards.
pub proof fn messages_take_effect(stats: StatsView, message: TuiMessage)
    ensures
        ({
            let after = stats.applied(message);
            match message {
                TuiMessage::Line { .. } => after == stats,
                TuiMessage::State { state } => after.state == state@,
                TuiMessage::WindowName { window_name } => after.window_name == window_name@,
                TuiMessage::KeyValuePair { key, value } => after.key_values.contains_key(key@)
                    && after.key_values[key@] == value@,
                TuiMessage::WorkerProgress { worker_name, progress, label } => {
                    &&& after.worker_progress.contains_key(worker_name@)
                    &&& after.worker_progress[worker_name@].progress == progress
                    &&& after.worker_progress[worker_name@].label == label@
                },
                TuiMessage::MasterProgress { progress, label } => {
                    &&& after.master_progress.progress == progress
                    &&& after.master_progress.label == label@
                },
                TuiMessage::DeleteWorkerBar { worker_name } => !after.worker_progress.contains_key(
                    worker_name@,
                ),
                TuiMessage::ExitHint(hint) => after.exit_hint == hint@,
            }
        }),
{
}

/// A message touches nothing but what it tells of: no other field, no other key and no other
/// worker.
pub proof fn messages_touch_only_what_they_tell(
    stats: StatsView,
    message: TuiMessage,
    name: Seq<char>,
)
    ensures
        ({
            let after = stats.applied(message);
            &&& !(message is State) ==> after.state == stats.state
            &&& !(message is WindowName) ==> after.window_name == stats.window_name
            &&& !(message is ExitHint) ==> after.exit_hint == stats.exit_hint
            &&& !(message is MasterProgress) ==> after.master_progress == stats.master_progress
            &&& !(message is KeyValuePair && message->KeyValuePair_key@ == name) ==> {
                &&& after.key_values.contains_key(name) == stats.key_values.contains_key(name)
                &&& stats.key_values.contains_key(name) ==> after.key_values[name]
                    == stats.key_values[name]
            }
            &&& !(message is WorkerProgress && message->WorkerProgress_worker_name@ == name) && !(
            message is DeleteWorkerBar && message->DeleteWorkerBar_worker_name@ == name) ==> {
                &&& after.worker_progress.contains_key(name)
                    == stats.worker_progress.contains_key(name)
                &&& stats.worker_progress.contains_key(name) ==> after.worker_progress[name]
                    == stats.worker_progress[name]
            }
        }),
{
}

/// A display that was told nothing shows empty texts and a master bar at zero.
pub proof fn untold_display_is_empty(window_name: Seq<char>, exit_hint: Seq<char>)
    ensures
        ({
            let stats = StatsView::initial(window_name, exit_hint);
            &&& stats.state.len() == 0
            &&& stats.window_name == window_name
            &&& stats.exit_hint == exit_hint
            &&& stats.key_values.dom() == Set::<Seq<char>>::empty()
            &&& stats.worker_progress.dom() == Set::<Seq<char>>::empty()
            &&& stats.master_progress.progress.bits == 0
            &&& stats.master_progress.label == "0%"@
        }),
{
}

/// After a series of messages the master bar shows the last master progress that was told, its
/// progress as well as its label, whatever was told before it.
pub proof fn last_master_progress_holds(stats: StatsView, messages: Seq<TuiMessage>, at: int)
    requires
        0 <= at < messages.len(),
        messages[at] is MasterProgress,
        forall|i: int| at < i < messages.len() ==> !((#[trigger] messages[i]) is MasterProgress),
    ensures
        ({
            let master = after_messages(stats, messages).master_progress;
            &&& master.progress == messages[at]->MasterProgress_progress
            &&& master.label == messages[at]->MasterProgress_label@
        }),
    decreases messages.len(),
{
    let init = messages.drop_last();
    if at < init.len() {
        assert(init[at] == messages[at]);
        assert forall|i: int| at < i < init.len() implies !((
        #[trigger] init[i]) is MasterProgress) by {
            assert(init[i] == messages[i]);
        }
        last_master_progress_holds(stats, init, at);
        assert(!(messages[messages.len() - 1] is MasterProgress));
    }
}

/// After a series of messages the state is the last one that was told.
pub proof fn last_state_holds(stats: StatsView, messages: Seq<TuiMessage>, at: int)
    requires
        0 <= at < messages.len(),
        messages[at] is State,
        forall|i: int| at < i < messages.len() ==> !((#[trigger] messages[i]) is State),
    ensures
        after_messages(stats, messages).state == messages[at]->State_state@,
    decreases messages.len(),
{
    let init = messages.drop_last();
    if at < init.len() {
        assert(init[at] == messages[at]);
        assert forall|i: int| at < i < init.len() implies !((#[trigger] init[i]) is State) by {
            assert(init[i] == messages[i]);
        }
        last_state_holds(stats, init, at);
        assert(!(messages[messages.len() - 1] is State));
    }
}

/// After a series of messages the window's name is the last one that was told.
pub proof fn last_window_name_holds(stats: StatsView, messages: Seq<TuiMessage>, at: int)
    requires
        0 <= at < messages.len(),
        messages[at] is WindowName,
        forall|i: int| at < i < messages.len() ==> !((#[trigger] messages[i]) is WindowName),
    ensures
        after_messages(stats, messages).window_name == messages[at]->WindowName_window_name@,
    decreases messages.len(),
{
    let init = messages.drop_last();
    if at < init.len() {
        assert(init[at] == messages[at]);
        assert forall|i: int| at < i < init.len() implies !((
        #[trigger] init[i]) is WindowName) by {
            assert(init[i] == messages[i]);
        }
        last_window_name_holds(stats, init, at);
        assert(!(messages[messages.len() - 1] is WindowName));
    }
}

/// After a series of messages the exit hint is the last one that was told.
pub proof fn last_exit_hint_holds(stats: StatsView, messages: Seq<TuiMessage>, at: int)
    requires
        0 <= at < messages.len(),
        messages[at] is ExitHint,
        forall|i: int| at < i < messages.len() ==> !((#[trigger] messages[i]) is ExitHint),
    ensures
        after_messages(stats, messages).exit_hint == messages[at]->ExitHint_0@,
    decreases messages.len(),
{
    let init = messages.drop_last();
    if at < init.len() {
        assert(init[at] == messages[at]);
        assert forall|i: int| at < i < init.len() implies !((#[trigger] init[i]) is ExitHint) by {
            assert(init[i] == messages[i]);
        }
        last_exit_hint_holds(stats, init, at);
        assert(!(messages[messages.len() - 1] is ExitHint));
    }
}

/// What no message of a series tells of stays as it was.
pub proof fn untold_fields_stay(stats: StatsView, messages: Seq<TuiMessage>)
    ensures
        ({
            let after = after_messages(stats, messages);
            &&& (forall|i: int| 0 <= i < messages.len() ==> !((#[trigger] messages[i]) is State))
                ==> after.state == stats.state
            &&& (forall|i: int|
                0 <= i < messages.len() ==> !((#[trigger] messages[i]) is WindowName))
                ==> after.window_name == stats.window_name
            &&& (forall|i: int| 0 <= i < messages.len() ==> !((#[trigger] messages[i]) is ExitHint))
                ==> after.exit_hint == stats.exit_hint
            &&& (forall|i: int|
                0 <= i < messages.len() ==> !((#[trigger] messages[i]) is MasterProgress))
                ==> after.master_progress == stats.master_progress
        }),
    decreases messages.len(),
{
    if messages.len() > 0 {
        let init = messages.drop_last();
        untold_fields_stay(stats, init);
        assert(forall|i: int| 0 <= i < init.len() ==> #[trigger] init[i] == messages[i]);
        let last = messages[messages.len() - 1];
        assert(last == messages.last());
    }
}

impl ProgressStats {
    pub open spec fn wf(self) -> bool {
        &&& self.key_values.wf()
        &&& self.worker_progress.wf()
    }

    /// The state before any message, with the given window name and exit hint.
    pub fn initial(window_name: &str, exit_hint: &str) -> (r: ProgressStats)
        ensures
            r.wf(),
            r@ == StatsView::initial(window_name@, exit_hint@),
    {
        let r = ProgressStats {
            state: String::new(),
            window_name: window_name.to_owned(),
            exit_hint: exit_hint.to_owned(),
            key_values: TextMap::new(),
            worker_progress: TextMap::new(),
            master_progress: ProgressGaugeState::zero(),
        };
        assert(r@ =~= StatsView::initial(window_name@, exit_hint@));
        r
    }

    /// Takes a message over into the state. Log lines are no part of the state.
    pub fn apply_message(&mut self, message: &TuiMessage)
        requires
            old(self).wf(),
            message.in_range(),
        ensures
            final(self).wf(),
            final(self)@ == old(self)@.applied(*message),
    {
        match message {
            TuiMessage::Line { .. } => {},
            TuiMessage::State { state } => {
                self.state = state.clone();
            },
            TuiMessage::WindowName { window_name } => {
                self.window_name = window_name.clone();
            },
            TuiMessage::KeyValuePair { key, value } => {
                self.key_values.insert(key.clone(), value.clone());
            },
            TuiMessage::WorkerProgress { worker_name, progress, label } => {
                self.worker_progress.insert(
                    worker_name.clone(),
                    ProgressGaugeState { progress: *progress, label: label.clone() },
                );
            },
            TuiMessage::MasterProgress { progress, label } => {
                self.master_progress = ProgressGaugeState {
                    progress: *progress,
                    label: label.clone(),
                };
            },
            TuiMessage::DeleteWorkerBar { worker_name } => {
                self.worker_progress.remove(worker_name.as_str());
            },
            TuiMessage::ExitHint(hint) => {
                self.exit_hint = hint.clone();
            },
        }
        assert(self@ =~= old(self)@.applied(*message));
    }
}

impl Default for ProgressStats {
    fn default() -> (r: Self)
        ensures
            r.wf(),
            r@ == StatsView::initial(DEFAULT_WINDOW_NAME@, SERVER_DISCONNECTED_HINT@),
    {
        ProgressStats::initial(DEFAULT_WINDOW_NAME, SERVER_DISCONNECTED_HINT)
    }
}

impl Duplicate for ProgressStats {
    fn duplicate(&self) -> (r: Self)
        ensures
            self.wf() ==> r.wf(),
    {
        let r = ProgressStats {
            state: self.state.clone(),
            window_name: self.window_name.clone(),
            exit_hint: self.exit_hint.clone(),
            key_values: self.key_values.duplicate(),
            worker_progress: self.worker_progress.duplicate(),
            master_progress: self.master_progress.duplicate(),
        };
        assert(r@ =~= self@);
        r
    }
}

// ---------------------------------------------------------------------------
// The wire
// ---------------------------------------------------------------------------

/// What a client sends to a server.
#[derive(Debug)]
pub enum ProgressClientMessage {
    SnapshotRequest,
    SubmitCommand { command: String },
}

/// What a server sends to a client.
#[derive(Debug)]
pub enum ProgressServerMessage {
    Snapshot(ProgressStats),
    Update(TuiMessage),
}

/// The address of the progress server, given the value of the environment variable.
pub fn progress_screen_server_addr(configured: Option<String>) -> (r: String)
    ensures
        r@ == (match configured {
            Some(addr) => addr@,
            None => DEFAULT_PROGRESS_SCREEN_TCP_ADDR@,
        }),
{
    match configured {
        Some(addr) => addr,
        None => DEFAULT_PROGRESS_SCREEN_TCP_ADDR.to_owned(),
    }
}

/// Whether an encoded message may go on the wire; if not, why.
pub fn check_wire_size(size: usize) -> (r: Result<(), String>)
    ensures
        match r {
            Ok(_) => size <= MAX_WIRE_MESSAGE_BYTES,
            Err(e) => size > MAX_WIRE_MESSAGE_BYTES && e@ == "wire message too large: "@
                + decimal::decimal(size as nat) + " bytes"@,
        },
{
    if size > MAX_WIRE_MESSAGE_BYTES {
        return Err(
            text::join3(
                "wire message too large: ",
                decimal::usize_text(size).as_str(),
                " bytes",
            ),
        );
    }
    Ok(())
}

/// What failed when a message was sent or received.
#[derive(Clone, Copy, Debug, PartialEq, Eq, Structural)]
pub enum WireStep {
    Encode,
    Write,
    Read,
    Decode,
}

/// The text of a wire error, given the underlying one.
pub fn wire_error(step: WireStep, error: &str) -> (r: String)
    ensures
        r@ == (match step {
            WireStep::Encode => "encode error: "@,
            WireStep::Write => "write error: "@,
            WireStep::Read => "read error: "@,
            WireStep::Decode => "decode error: "@,
        }) + error@,
{
    let prefix = match step {
        WireStep::Encode => "encode error: ",
        WireStep::Write => "write error: ",
        WireStep::Read => "read error: ",
        WireStep::Decode => "decode error: ",
    };
    text::join2(prefix, error)
}

/// A message is at most sixteen mebibytes long; the screen's server is on the local machine where
/// nothing else is set.
pub proof fn the_wire_has_these_bounds()
    ensures
        MAX_WIRE_MESSAGE_BYTES == 16 * 1024 * 1024,
        DEFAULT_PROGRESS_SCREEN_TCP_ADDR@ == "127.0.0.1:7878"@,
        PROGRESS_SCREEN_TCP_ADDR_ENV@ == "RESEARCH_UTILITY_PROGRESS_TUI_ADDR"@,
        DEFAULT_WINDOW_NAME@ == "Progress Screen"@,
        SERVER_DISCONNECTED_HINT@ == "Server disconnected. Ctrl+C to exit."@,
        ZERO_LABEL@ == "0%"@,
{
}

}
