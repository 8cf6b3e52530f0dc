//! A logger that writes a short summary and a full log as text.

use crate::float_bits;
use crate::float_bits::Float32;
use crate::log_lines;
use crate::log_lines::LineView;
pub use crate::log_lines::ProgressLogLine;
use crate::message::{Severity, TuiMessage};
use crate::progress_tui_logger;
pub use crate::progress_tui_protocol::ProgressGaugeState;
use crate::progress_tui_protocol::{GaugeView, ProgressStats, StatsView};
use crate::replay_state;
use crate::text;
use crate::text_map;
use crate::text_map::{Duplicate, TextMap};
use vstd::prelude::*;

verus! {

/// How often the full log is written, in seconds.
pub const FLUSH_INTERVAL_SECS: u64 = 5;

/// The line between sections: seventy equals signs.
pub const RULE: &'static str = "======================================================================";

/// What a running logger holds.
#[derive(Debug)]
pub struct ProgressTextLogger {
    pub snapshot: ProgressStats,
    pub pending_log_lines: Vec<ProgressLogLine>,
    pub last_flushed_snapshot: ProgressStats,
}

// ---------------------------------------------------------------------------
// Changes
// ---------------------------------------------------------------------------

/// The two states compare as equal.
pub open spec fn same_stats(a: StatsView, b: StatsView) -> bool {
    &&& a.state == b.state
    &&& a.window_name == b.window_name
    &&& a.exit_hint == b.exit_hint
    &&& a.key_values == b.key_values
    &&& replay_state::same_gauges(a.worker_progress, b.worker_progress)
    &&& a.master_progress.same(b.master_progress)
}

fn same_key_values(a: &TextMap<String>, b: &TextMap<String>) -> (r: bool)
    requires
        a.wf(),
        b.wf(),
    ensures
        r == (a@ == b@),
{
    let mut i: usize = 0;
    while i < a.len()
        invariant
            a.wf(),
            b.wf(),
            i <= a.keys().len(),
            forall|j: int|
                0 <= j < i ==> b@.contains_key(#[trigger] a.keys()[j]) && b@[a.keys()[j]]
                    == a@[a.keys()[j]],
        decreases a.keys().len() - i,
    {
        proof {
            text_map::lemma_map_of(a.keys(), a.values());
        }
        let value = a.value_at(i);
        assert(a@.contains_key(a.keys()[i as int]));
        match b.get(a.key_at(i).as_str()) {
            Some(other) => {
                if !text::same_text(value.as_str(), other.as_str()) {
                    return false;
                }
            },
            None => {
                return false;
            },
        }
        i = i + 1;
    }
    let mut j: usize = 0;
    while j < b.len()
        invariant
            a.wf(),
            b.wf(),
            j <= b.keys().len(),
            forall|k: int| 0 <= k < j ==> a@.contains_key(#[trigger] b.keys()[k]),
        decreases b.keys().len() - j,
    {
        proof {
            text_map::lemma_map_of(b.keys(), b.values());
        }
        assert(b@.contains_key(b.keys()[j as int]));
        if !a.contains_key(b.key_at(j).as_str()) {
            return false;
        }
        j = j + 1;
    }
    proof {
        text_map::lemma_map_of(a.keys(), a.values());
        text_map::lemma_map_of(b.keys(), b.values());
        assert(a@ =~= b@);
    }
    true
}

fn same_workers(a: &TextMap<ProgressGaugeState>, b: &TextMap<ProgressGaugeState>) -> (r: bool)
    requires
        a.wf(),
        b.wf(),
    ensures
        r == replay_state::same_gauges(a@, b@),
{
    let mut i: usize = 0;
    while i < a.len()
        invariant
            a.wf(),
            b.wf(),
            i <= a.keys().len(),
            forall|j: int|
                0 <= j < i ==> b@.contains_key(#[trigger] a.keys()[j]) && a@[a.keys()[j]].same(
                    b@[a.keys()[j]],
                ),
        decreases a.keys().len() - i,
    {
        proof {
            text_map::lemma_map_of(a.keys(), a.values());
        }
        let value = a.value_at(i);
        assert(a@.contains_key(a.keys()[i as int]));
        match b.get(a.key_at(i).as_str()) {
            Some(other) => {
                if !value.equals(other) {
                    return false;
                }
            },
            None => {
                assert(a@.dom().contains(a.keys()[i as int]));
                assert(!b@.dom().contains(a.keys()[i as int]));
                return false;
            },
        }
        i = i + 1;
    }
    let mut j: usize = 0;
    while j < b.len()
        invariant
            a.wf(),
            b.wf(),
            j <= b.keys().len(),
            forall|k: int| 0 <= k < j ==> a@.contains_key(#[trigger] b.keys()[k]),
        decreases b.keys().len() - j,
    {
        proof {
            text_map::lemma_map_of(b.keys(), b.values());
        }
        assert(b@.contains_key(b.keys()[j as int]));
        if !a.contains_key(b.key_at(j).as_str()) {
            assert(b@.dom().contains(b.keys()[j as int]));
            assert(!a@.dom().contains(b.keys()[j as int]));
            return false;
        }
        j = j + 1;
    }
    proof {
        text_map::lemma_map_of(a.keys(), a.values());
        text_map::lemma_map_of(b.keys(), b.values());
        assert(a@.dom() =~= b@.dom());
    }
    true
}

impl ProgressStats {
    /// Whether anything is different from an earlier state.
    pub fn changed_since(&self, previous: &ProgressStats) -> (r: bool)
        requires
            self.wf(),
            previous.wf(),
        ensures
            r == !same_stats(self@, previous@),
    {
        !(text::same_text(self.state.as_str(), previous.state.as_str()) && text::same_text(
            self.window_name.as_str(),
            previous.window_name.as_str(),
        ) && text::same_text(self.exit_hint.as_str(), previous.exit_hint.as_str())
            && same_key_values(&self.key_values, &previous.key_values) && same_workers(
            &self.worker_progress,
            &previous.worker_progress,
        ) && self.master_progress.equals(&previous.master_progress))
    }
}

/// A state whose gauges stand between 0 and 1 is no change from itself.
pub proof fn no_change_from_itself(stats: StatsView)
    requires
        stats.in_range(),
    ensures
        same_stats(stats, stats),
{
    assert forall|k: Seq<char>| #[trigger] stats.worker_progress.contains_key(
        k,
    ) implies stats.worker_progress[k].same(stats.worker_progress[k]) by {
        float_bits::unit_range_compares(stats.worker_progress[k].progress);
    }
    float_bits::unit_range_compares(stats.master_progress.progress);
}

// ---------------------------------------------------------------------------
// Sections of the full log
// ---------------------------------------------------------------------------

/// A section of the full log: the state, the lines since the section before, and whether the
/// state changed since then.
#[derive(Debug)]
pub struct VerboseSection {
    pub snapshot: ProgressStats,
    pub log_lines: Vec<ProgressLogLine>,
    pub snapshot_changed: bool,
}

/// The line, if the text is not empty.
pub open spec fn named_line(name: Seq<char>, value: Seq<char>) -> Seq<Seq<char>> {
    if value.len() == 0 {
        Seq::empty()
    } else {
        seq![name + value]
    }
}

pub open spec fn key_value_line(key: Seq<char>, value: Seq<char>) -> Seq<char> {
    "  "@ + key + ": "@ + value
}

pub open spec fn worker_line(name: Seq<char>, percent: Seq<char>, label: Seq<char>) -> Seq<char> {
    "  "@ + name + ": "@ + percent + "% - "@ + label
}

/// The severity as the full log writes it.
pub open spec fn severity_word(severity: Severity) -> Seq<char> {
    match severity {
        Severity::Info => "INFO"@,
        Severity::Warning => "WARN"@,
        Severity::Error => "ERROR"@,
        Severity::Verbose => "VERBOSE"@,
    }
}

pub open spec fn log_line(line: LineView) -> Seq<char> {
    "  ["@ + severity_word(line.severity) + "] "@ + line.message
}

/// A list under a heading, behind an empty line, if the list is not empty.
pub open spec fn headed(heading: Seq<char>, items: Seq<Seq<char>>) -> Seq<Seq<char>> {
    if items.len() == 0 {
        Seq::empty()
    } else {
        seq![Seq::empty(), heading] + items
    }
}

pub open spec fn key_value_items(key_values: TextMap<String>) -> Seq<Seq<char>> {
    Seq::new(
        key_values.keys().len(),
        |i: int| key_value_line(key_values.keys()[i], key_values.values()[i]),
    )
}

pub open spec fn worker_items(
    workers: TextMap<ProgressGaugeState>,
    percents: Seq<Seq<char>>,
) -> Seq<Seq<char>> {
    Seq::new(
        workers.keys().len(),
        |i: int| worker_line(workers.keys()[i], percents[i], workers.values()[i].label),
    )
}

pub open spec fn log_items(lines: Seq<LineView>) -> Seq<Seq<char>> {
    lines.map_values(|l: LineView| log_line(l))
}

/// The gauge of the whole, behind an empty line, if it stands above zero.
pub open spec fn master_lines(gauge: GaugeView, percent: Seq<char>) -> Seq<Seq<char>> {
    if gauge.progress.positive() {
        seq![Seq::empty(), "Master: "@ + percent + "% - "@ + gauge.label]
    } else {
        Seq::empty()
    }
}

/// The lines of a section. The time since the start in seconds and the progress of each gauge in
/// per cent come as text with one decimal.
pub open spec fn section_lines(
    snapshot: ProgressStats,
    lines: Seq<LineView>,
    elapsed_text: Seq<char>,
    percents: Seq<Seq<char>>,
    master_percent: Seq<char>,
) -> Seq<Seq<char>> {
    seq![RULE@, "Elapsed: "@ + elapsed_text + "s"@, RULE@] + named_line(
        "State: "@,
        snapshot@.state,
    ) + named_line("Window: "@, snapshot@.window_name) + named_line(
        "Exit Hint: "@,
        snapshot@.exit_hint,
    ) + headed("Key-Value Pairs:"@, key_value_items(snapshot.key_values)) + headed(
        "Workers:"@,
        worker_items(snapshot.worker_progress, percents),
    ) + master_lines(snapshot@.master_progress, master_percent) + headed(
        "Log Lines:"@,
        log_items(lines),
    ) + seq![Seq::empty()]
}

/// The lines as one text, each with a line break behind it.
pub open spec fn with_breaks(lines: Seq<Seq<char>>) -> Seq<char>
    decreases lines.len(),
{
    if lines.len() == 0 {
        Seq::empty()
    } else {
        with_breaks(lines.drop_last()) + lines.last() + "\n"@
    }
}

fn push_line(out: &mut Vec<String>, line: String)
    ensures
        text::texts(final(out)@) == text::texts(old(out)@).push(line@),
{
    let ghost before = out@;
    out.push(line);
    assert(text::texts(out@) =~= text::texts(before).push(line@));
}

fn push_named(out: &mut Vec<String>, name: &str, value: &str)
    ensures
        text::texts(final(out)@) == text::texts(old(out)@) + named_line(name@, value@),
{
    if value.is_empty() {
        assert(text::texts(out@) + named_line(name@, value@) =~= text::texts(out@));
    } else {
        let ghost before = text::texts(out@);
        push_line(out, text::join2(name, value));
        assert(before.push(name@ + value@) =~= before + named_line(name@, value@));
    }
}

fn push_key_values(out: &mut Vec<String>, key_values: &TextMap<String>)
    requires
        key_values.wf(),
    ensures
        text::texts(final(out)@) == text::texts(old(out)@) + headed(
            "Key-Value Pairs:"@,
            key_value_items(*key_values),
        ),
{
    let ghost before = text::texts(out@);
    let ghost items = key_value_items(*key_values);
    if key_values.len() == 0 {
        assert(before + headed("Key-Value Pairs:"@, items) =~= before);
        return;
    }
    push_line(out, String::new());
    push_line(out, "Key-Value Pairs:".to_owned());
    let ghost top = before + seq![Seq::<char>::empty(), "Key-Value Pairs:"@];
    let mut i: usize = 0;
    assert(text::texts(out@) =~= top + items.take(0));
    while i < key_values.len()
        invariant
            key_values.wf(),
            items == key_value_items(*key_values),
            i <= items.len(),
            text::texts(out@) == top + items.take(i as int),
        decreases items.len() - i,
    {
        let line = text::join4(
            "  ",
            key_values.key_at(i).as_str(),
            ": ",
            key_values.value_at(i).as_str(),
        );
        assert(line@ == items[i as int]);
        push_line(out, line);
        assert(top + items.take(i + 1) =~= (top + items.take(i as int)).push(items[i as int]));
        i = i + 1;
    }
    assert(items.take(items.len() as int) =~= items);
    assert(text::texts(out@) =~= before + headed("Key-Value Pairs:"@, items));
}

fn push_workers(
    out: &mut Vec<String>,
    workers: &TextMap<ProgressGaugeState>,
    percents: &Vec<String>,
)
    requires
        workers.wf(),
        percents@.len() == workers.keys().len(),
    ensures
        text::texts(final(out)@) == text::texts(old(out)@) + headed(
            "Workers:"@,
            worker_items(*workers, text::texts(percents@)),
        ),
{
    let ghost before = text::texts(out@);
    let ghost items = worker_items(*workers, text::texts(percents@));
    if workers.len() == 0 {
        assert(before + headed("Workers:"@, items) =~= before);
        return;
    }
    push_line(out, String::new());
    push_line(out, "Workers:".to_owned());
    let ghost top = before + seq![Seq::<char>::empty(), "Workers:"@];
    let mut i: usize = 0;
    assert(text::texts(out@) =~= top + items.take(0));
    while i < workers.len()
        invariant
            workers.wf(),
            percents@.len() == workers.keys().len(),
            items == worker_items(*workers, text::texts(percents@)),
            i <= items.len(),
            text::texts(out@) == top + items.take(i as int),
        decreases items.len() - i,
    {
        let line = text::join6(
            "  ",
            workers.key_at(i).as_str(),
            ": ",
            percents[i].as_str(),
            "% - ",
            workers.value_at(i).label.as_str(),
        );
        assert(text::texts(percents@)[i as int] == percents@[i as int]@);
        assert(line@ == items[i as int]);
        push_line(out, line);
        assert(top + items.take(i + 1) =~= (top + items.take(i as int)).push(items[i as int]));
        i = i + 1;
    }
    assert(items.take(items.len() as int) =~= items);
    assert(text::texts(out@) =~= before + headed("Workers:"@, items));
}

fn push_log_lines(out: &mut Vec<String>, lines: &Vec<ProgressLogLine>)
    ensures
        text::texts(final(out)@) == text::texts(old(out)@) + headed(
            "Log Lines:"@,
            log_items(log_lines::line_views(lines@)),
        ),
{
    let ghost before = text::texts(out@);
    let ghost items = log_items(log_lines::line_views(lines@));
    if lines.len() == 0 {
        assert(before + headed("Log Lines:"@, items) =~= before);
        return;
    }
    push_line(out, String::new());
    push_line(out, "Log Lines:".to_owned());
    let ghost top = before + seq![Seq::<char>::empty(), "Log Lines:"@];
    let mut i: usize = 0;
    assert(text::texts(out@) =~= top + items.take(0));
    while i < lines.len()
        invariant
            items == log_items(log_lines::line_views(lines@)),
            items.len() == lines@.len(),
            i <= items.len(),
            text::texts(out@) == top + items.take(i as int),
        decreases items.len() - i,
    {
        let severity = match lines[i].severity {
            Severity::Info => "INFO",
            Severity::Warning => "WARN",
            Severity::Error => "ERROR",
            Severity::Verbose => "VERBOSE",
        };
        let line = text::join4("  [", severity, "] ", lines[i].message.as_str());
        assert(line@ == items[i as int]);
        push_line(out, line);
        assert(top + items.take(i + 1) =~= (top + items.take(i as int)).push(items[i as int]));
        i = i + 1;
    }
    assert(items.take(items.len() as int) =~= items);
    assert(text::texts(out@) =~= before + headed("Log Lines:"@, items));
}

fn joined_with_breaks(lines: &Vec<String>) -> (s: String)
    ensures
        s@ == with_breaks(text::texts(lines@)),
{
    let ghost views = text::texts(lines@);
    let mut s = String::new();
    let mut i: usize = 0;
    assert(s@ =~= with_breaks(views.take(0)));
    while i < lines.len()
        invariant
            views == text::texts(lines@),
            i <= views.len(),
            s@ == with_breaks(views.take(i as int)),
        decreases views.len() - i,
    {
        s.append(lines[i].as_str());
        s.append("\n");
        assert(views.take(i + 1).drop_last() =~= views.take(i as int));
        assert(views.take(i + 1).last() == lines@[i as int]@);
        i = i + 1;
    }
    assert(views.take(views.len() as int) =~= views);
    s
}

impl VerboseSection {
    pub open spec fn lines(self) -> Seq<LineView> {
        log_lines::line_views(self.log_lines@)
    }

    /// The text of the section. The time since the start in seconds and the progress of each
    /// gauge in per cent come as text with one decimal.
    pub fn text(&self, elapsed_text: &str, percents: &Vec<String>, master_percent: &str) -> (s:
        String)
        requires
            self.snapshot.wf(),
            percents@.len() == self.snapshot.worker_progress.keys().len(),
        ensures
            s@ == with_breaks(
                section_lines(
                    self.snapshot,
                    self.lines(),
                    elapsed_text@,
                    text::texts(percents@),
                    master_percent@,
                ),
            ),
    {
        let mut out: Vec<String> = Vec::new();
        assert(text::texts(out@) =~= Seq::<Seq<char>>::empty());
        push_line(&mut out, RULE.to_owned());
        push_line(&mut out, text::join3("Elapsed: ", elapsed_text, "s"));
        push_line(&mut out, RULE.to_owned());
        assert(text::texts(out@) =~= seq![RULE@, "Elapsed: "@ + elapsed_text@ + "s"@, RULE@]);
        push_named(&mut out, "State: ", self.snapshot.state.as_str());
        push_named(&mut out, "Window: ", self.snapshot.window_name.as_str());
        push_named(&mut out, "Exit Hint: ", self.snapshot.exit_hint.as_str());
        push_key_values(&mut out, &self.snapshot.key_values);
        push_workers(&mut out, &self.snapshot.worker_progress, percents);
        let ghost before = text::texts(out@);
        if self.snapshot.master_progress.progress.is_positive() {
            push_line(&mut out, String::new());
            push_line(
                &mut out,
                text::join4(
                    "Master: ",
                    master_percent,
                    "% - ",
                    self.snapshot.master_progress.label.as_str(),
                ),
            );
        }
        assert(text::texts(out@) =~= before + master_lines(
            self.snapshot@.master_progress,
            master_percent@,
        ));
        push_log_lines(&mut out, &self.log_lines);
        let ghost most = text::texts(out@);
        push_line(&mut out, String::new());
        assert(text::texts(out@) =~= most + seq![Seq::<char>::empty()]);
        joined_with_breaks(&out)
    }
}

// ---------------------------------------------------------------------------
// The logger
// ---------------------------------------------------------------------------

impl ProgressTextLogger {
    pub open spec fn wf(self) -> bool {
        &&& self.snapshot.wf()
        &&& self.last_flushed_snapshot.wf()
    }

    pub open spec fn pending(self) -> Seq<LineView> {
        log_lines::line_views(self.pending_log_lines@)
    }

    /// A logger before its first message.
    pub fn new() -> (r: ProgressTextLogger)
        ensures
            r.wf(),
            r.snapshot@ == StatsView::initial(Seq::empty(), Seq::empty()),
            r.last_flushed_snapshot@ == r.snapshot@,
            r.pending() == Seq::<LineView>::empty(),
    {
        proof {
            reveal_strlit("");
            assert(""@ =~= Seq::<char>::empty());
        }
        let r = ProgressTextLogger {
            snapshot: ProgressStats::initial("", ""),
            pending_log_lines: Vec::new(),
            last_flushed_snapshot: ProgressStats::initial("", ""),
        };
        assert(r.pending() =~= Seq::<LineView>::empty());
        r
    }

    /// The section of the full log that is due, if there are lines or the state changed. The
    /// pending lines go into it.
    pub fn flush_verbose_section(&mut self) -> (r: Option<VerboseSection>)
        requires
            old(self).wf(),
        ensures
            final(self).wf(),
            final(self).snapshot == old(self).snapshot,
            final(self).last_flushed_snapshot == old(self).last_flushed_snapshot,
            final(self).pending() == Seq::<LineView>::empty(),
            ({
                let changed = !same_stats(
                    old(self).snapshot@,
                    old(self).last_flushed_snapshot@,
                );
                match r {
                    Some(section) => {
                        &&& changed || old(self).pending().len() > 0
                        &&& section.snapshot.wf()
                        &&& section.snapshot@ == old(self).snapshot@
                        &&& section.lines() == old(self).pending()
                        &&& section.snapshot_changed == changed
                    },
                    None => !changed && old(self).pending().len() == 0,
                }
            }),
    {
        let snapshot = self.snapshot.duplicate();
        let mut log_lines: Vec<ProgressLogLine> = Vec::new();
        std::mem::swap(&mut log_lines, &mut self.pending_log_lines);
        assert(self.pending() =~= Seq::<LineView>::empty());
        let snapshot_changed = self.snapshot.changed_since(&self.last_flushed_snapshot);
        if log_lines.len() == 0 && !snapshot_changed {
            return None;
        }
        Some(VerboseSection { snapshot, log_lines, snapshot_changed })
    }

    /// Takes note that a section was written.
    pub fn section_written(&mut self, section: VerboseSection)
        requires
            old(self).wf(),
            section.snapshot.wf(),
        ensures
            final(self).wf(),
            final(self).last_flushed_snapshot == (if section.snapshot_changed {
                section.snapshot
            } else {
                old(self).last_flushed_snapshot
            }),
            final(self).snapshot == old(self).snapshot,
            final(self).pending_log_lines == old(self).pending_log_lines,
    {
        if section.snapshot_changed {
            self.last_flushed_snapshot = section.snapshot;
        }
    }
}

/// What is to be done with a message that was logged.
#[derive(Debug)]
pub enum Logged {
    /// There is no logger: the message is printed.
    Print(TuiMessage),
    /// The line, if there is one, goes to the summary and is printed.
    Taken { summary: Option<String> },
}

/// The line of the summary for a message: information and errors have one.
pub open spec fn summary_of(message: TuiMessage) -> Option<Seq<char>> {
    match message {
        TuiMessage::Line { message, severity } => if severity == Severity::Info || severity
            == Severity::Error {
            Some(message@)
        } else {
            None
        },
        _ => None,
    }
}

/// A logger that is not running or is well-formed.
pub open spec fn logger_wf(logger: Option<ProgressTextLogger>) -> bool {
    logger is Some ==> logger->0.wf()
}

/// How a logger, running or not, takes a message.
pub open spec fn logged(
    before: Option<ProgressTextLogger>,
    after: Option<ProgressTextLogger>,
    message: TuiMessage,
    r: Logged,
) -> bool {
    match before {
        None => after is None && r == Logged::Print(message),
        Some(b) => {
            &&& after is Some
            &&& after->0.wf()
            &&& after->0.snapshot@ == b.snapshot@.applied(message)
            &&& after->0.pending() == b.pending() + progress_tui_logger::lines_of(message)
            &&& after->0.last_flushed_snapshot == b.last_flushed_snapshot
            &&& r is Taken
            &&& progress_tui_logger::option_view(r->summary) == summary_of(message)
        },
    }
}

pub fn log_message(logger: &mut Option<ProgressTextLogger>, message: TuiMessage) -> (r: Logged)
    requires
        logger_wf(*old(logger)),
        *old(logger) is Some ==> message.in_range(),
    ensures
        logger_wf(*final(logger)),
        logged(*old(logger), *final(logger), message, r),
{
    match logger {
        None => Logged::Print(message),
        Some(running) => {
            let ghost before = *running;
            let mut summary: Option<String> = None;
            if let TuiMessage::Line { message: line, severity } = &message {
                running.pending_log_lines.push(
                    ProgressLogLine { message: line.clone(), severity: *severity },
                );
                if *severity == Severity::Info || *severity == Severity::Error {
                    summary = Some(line.clone());
                }
            }
            running.snapshot.apply_message(&message);
            assert(running.pending() =~= before.pending() + progress_tui_logger::lines_of(message));
            Logged::Taken { summary }
        },
    }
}

pub fn log_info(
    logger: &mut Option<ProgressTextLogger>,
    message: String,
) -> (r: Logged)
    requires
        logger_wf(*old(logger)),
    ensures
        logger_wf(*final(logger)),
        logged(*old(logger), *final(logger), (TuiMessage::Line { message, severity: Severity::Info }), r),
{
    log_message(logger, TuiMessage::Line { message, severity: Severity::Info })
}

pub fn log_verbose(
    logger: &mut Option<ProgressTextLogger>,
    message: String,
) -> (r: Logged)
    requires
        logger_wf(*old(logger)),
    ensures
        logger_wf(*final(logger)),
        logged(*old(logger), *final(logger), (TuiMessage::Line { message, severity: Severity::Verbose }), r),
{
    log_message(logger, TuiMessage::Line { message, severity: Severity::Verbose })
}

/// Logs a line that begins with its severity.
pub fn log_warning(logger: &mut Option<ProgressTextLogger>, message: &str) -> (r: Logged)
    requires
        logger_wf(*old(logger)),
    ensures
        logger_wf(*final(logger)),
        exists|line: String|
            line@ == "[WARNING] "@ + message@ && #[trigger] logged(
                *old(logger),
                *final(logger),
                (TuiMessage::Line { message: line, severity: Severity::Warning }),
                r,
            ),
{
    let line = text::join2("[WARNING] ", message);
    log_message(logger, TuiMessage::Line { message: line, severity: Severity::Warning })
}

/// Logs a line that begins with its severity.
pub fn log_error(logger: &mut Option<ProgressTextLogger>, message: &str) -> (r: Logged)
    requires
        logger_wf(*old(logger)),
    ensures
        logger_wf(*final(logger)),
        exists|line: String|
            line@ == "[ERROR] "@ + message@ && #[trigger] logged(
                *old(logger),
                *final(logger),
                (TuiMessage::Line { message: line, severity: Severity::Error }),
                r,
            ),
{
    let line = text::join2("[ERROR] ", message);
    log_message(logger, TuiMessage::Line { message: line, severity: Severity::Error })
}

pub fn log_state(
    logger: &mut Option<ProgressTextLogger>,
    state: String,
) -> (r: Logged)
    requires
        logger_wf(*old(logger)),
    ensures
        logger_wf(*final(logger)),
        logged(*old(logger), *final(logger), (TuiMessage::State { state }), r),
{
    log_message(logger, TuiMessage::State { state })
}

pub fn log_window_name(
    logger: &mut Option<ProgressTextLogger>,
    window_name: String,
) -> (r: Logged)
    requires
        logger_wf(*old(logger)),
    ensures
        logger_wf(*final(logger)),
        logged(*old(logger), *final(logger), (TuiMessage::WindowName { window_name }), r),
{
    log_message(logger, TuiMessage::WindowName { window_name })
}

pub fn log_key_value_pair(
    logger: &mut Option<ProgressTextLogger>,
    key: String,
    value: String,
) -> (r: Logged)
    requires
        logger_wf(*old(logger)),
    ensures
        logger_wf(*final(logger)),
        logged(*old(logger), *final(logger), (TuiMessage::KeyValuePair { key, value }), r),
{
    log_message(logger, TuiMessage::KeyValuePair { key, value })
}

pub fn log_master_progress(
    logger: &mut Option<ProgressTextLogger>,
    progress: Float32,
    label: String,
) -> (r: Logged)
    requires
        logger_wf(*old(logger)),
        *old(logger) is Some ==> progress.in_unit_range(),
    ensures
        logger_wf(*final(logger)),
        logged(*old(logger), *final(logger), (TuiMessage::MasterProgress { progress, label }), r),
{
    log_message(logger, TuiMessage::MasterProgress { progress, label })
}

pub fn log_worker_progress(
    logger: &mut Option<ProgressTextLogger>,
    worker_name: String,
    progress: Float32,
    label: String,
) -> (r: Logged)
    requires
        logger_wf(*old(logger)),
        *old(logger) is Some ==> progress.in_unit_range(),
    ensures
        logger_wf(*final(logger)),
        logged(*old(logger), *final(logger), (TuiMessage::WorkerProgress { worker_name, progress, label }), r),
{
    log_message(logger, TuiMessage::WorkerProgress { worker_name, progress, label })
}

pub fn delete_worker_progress_bar(
    logger: &mut Option<ProgressTextLogger>,
    worker_name: String,
) -> (r: Logged)
    requires
        logger_wf(*old(logger)),
    ensures
        logger_wf(*final(logger)),
        logged(*old(logger), *final(logger), (TuiMessage::DeleteWorkerBar { worker_name }), r),
{
    log_message(logger, TuiMessage::DeleteWorkerBar { worker_name })
}

pub fn log_exit_hint(
    logger: &mut Option<ProgressTextLogger>,
    hint: String,
) -> (r: Logged)
    requires
        logger_wf(*old(logger)),
    ensures
        logger_wf(*final(logger)),
        logged(*old(logger), *final(logger), (TuiMessage::ExitHint(hint)), r),
{
    log_message(logger, TuiMessage::ExitHint(hint))
}

// ---------------------------------------------------------------------------
// Laws
// ---------------------------------------------------------------------------

/// Any difference is a change: in the state, the name of the window, the hint, a key or its value,
/// a worker or its gauge, or the master gauge.
pub proof fn any_difference_is_a_change(a: StatsView, b: StatsView, name: Seq<char>)
    ensures
        a.state != b.state ==> !same_stats(a, b),
        a.window_name != b.window_name ==> !same_stats(a, b),
        a.exit_hint != b.exit_hint ==> !same_stats(a, b),
        a.key_values.contains_key(name) != b.key_values.contains_key(name) ==> !same_stats(a, b),
        a.key_values.contains_key(name) && b.key_values.contains_key(name) && a.key_values[name]
            != b.key_values[name] ==> !same_stats(a, b),
        a.worker_progress.contains_key(name) != b.worker_progress.contains_key(name)
            ==> !same_stats(a, b),
        a.worker_progress.contains_key(name) && b.worker_progress.contains_key(name)
            && a.worker_progress[name].label != b.worker_progress[name].label ==> !same_stats(a, b),
        a.worker_progress.contains_key(name) && b.worker_progress.contains_key(name)
            && !a.worker_progress[name].progress.same_value(b.worker_progress[name].progress)
            ==> !same_stats(a, b),
        a.master_progress.label != b.master_progress.label ==> !same_stats(a, b),
        !a.master_progress.progress.same_value(b.master_progress.progress) ==> !same_stats(a, b),
{
    if same_stats(a, b) {
        assert(a.worker_progress.dom().contains(name) == b.worker_progress.dom().contains(name));
    }
}

proof fn lemma_in_either(a: Seq<Seq<char>>, b: Seq<Seq<char>>, x: Seq<char>)
    ensures
        a.contains(x) ==> (a + b).contains(x),
        b.contains(x) ==> (a + b).contains(x),
{
    if a.contains(x) {
        let i = choose|i: int| 0 <= i < a.len() && a[i] == x;
        assert((a + b)[i] == x);
    }
    if b.contains(x) {
        let i = choose|i: int| 0 <= i < b.len() && b[i] == x;
        assert((a + b)[a.len() + i] == x);
    }
}

proof fn lemma_part_of_section(
    snapshot: ProgressStats,
    lines: Seq<LineView>,
    elapsed_text: Seq<char>,
    percents: Seq<Seq<char>>,
    master_percent: Seq<char>,
    x: Seq<char>,
)
    requires
        named_line("State: "@, snapshot@.state).contains(x) || named_line(
            "Window: "@,
            snapshot@.window_name,
        ).contains(x) || named_line("Exit Hint: "@, snapshot@.exit_hint).contains(x) || headed(
            "Key-Value Pairs:"@,
            key_value_items(snapshot.key_values),
        ).contains(x) || headed(
            "Workers:"@,
            worker_items(snapshot.worker_progress, percents),
        ).contains(x) || master_lines(snapshot@.master_progress, master_percent).contains(x),
    ensures
        section_lines(snapshot, lines, elapsed_text, percents, master_percent).contains(x),
{
    let top = seq![RULE@, "Elapsed: "@ + elapsed_text + "s"@, RULE@];
    let state = named_line("State: "@, snapshot@.state);
    let window = named_line("Window: "@, snapshot@.window_name);
    let hint = named_line("Exit Hint: "@, snapshot@.exit_hint);
    let keyed = headed("Key-Value Pairs:"@, key_value_items(snapshot.key_values));
    let worked = headed("Workers:"@, worker_items(snapshot.worker_progress, percents));
    let master = master_lines(snapshot@.master_progress, master_percent);
    let logged_lines = headed("Log Lines:"@, log_items(lines));
    let end = seq![Seq::<char>::empty()];
    lemma_in_either(top, state, x);
    lemma_in_either(top + state, window, x);
    lemma_in_either(top + state + window, hint, x);
    lemma_in_either(top + state + window + hint, keyed, x);
    lemma_in_either(top + state + window + hint + keyed, worked, x);
    lemma_in_either(top + state + window + hint + keyed + worked, master, x);
    lemma_in_either(top + state + window + hint + keyed + worked + master, logged_lines, x);
    lemma_in_either(
        top + state + window + hint + keyed + worked + master + logged_lines,
        end,
        x,
    );
}

/// A section begins with the time between two rules, and ends with an empty line.
pub proof fn sections_begin_with_the_time(
    snapshot: ProgressStats,
    lines: Seq<LineView>,
    elapsed_text: Seq<char>,
    percents: Seq<Seq<char>>,
    master_percent: Seq<char>,
)
    ensures
        ({
            let all = section_lines(snapshot, lines, elapsed_text, percents, master_percent);
            &&& all.len() >= 4
            &&& all[0] == RULE@
            &&& all[1] == "Elapsed: "@ + elapsed_text + "s"@
            &&& all[2] == RULE@
            &&& all.last().len() == 0
        }),
{
}

/// A section holds a line for the state, the name of the window and the hint, where they are not
/// empty.
pub proof fn sections_hold_the_texts(
    snapshot: ProgressStats,
    lines: Seq<LineView>,
    elapsed_text: Seq<char>,
    percents: Seq<Seq<char>>,
    master_percent: Seq<char>,
)
    ensures
        ({
            let all = section_lines(snapshot, lines, elapsed_text, percents, master_percent);
            &&& snapshot@.state.len() > 0 ==> all.contains("State: "@ + snapshot@.state)
            &&& snapshot@.window_name.len() > 0 ==> all.contains(
                "Window: "@ + snapshot@.window_name,
            )
            &&& snapshot@.exit_hint.len() > 0 ==> all.contains(
                "Exit Hint: "@ + snapshot@.exit_hint,
            )
        }),
{
    if snapshot@.state.len() > 0 {
        let x = "State: "@ + snapshot@.state;
        assert(named_line("State: "@, snapshot@.state)[0] == x);
        lemma_part_of_section(snapshot, lines, elapsed_text, percents, master_percent, x);
    }
    if snapshot@.window_name.len() > 0 {
        let x = "Window: "@ + snapshot@.window_name;
        assert(named_line("Window: "@, snapshot@.window_name)[0] == x);
        lemma_part_of_section(snapshot, lines, elapsed_text, percents, master_percent, x);
    }
    if snapshot@.exit_hint.len() > 0 {
        let x = "Exit Hint: "@ + snapshot@.exit_hint;
        assert(named_line("Exit Hint: "@, snapshot@.exit_hint)[0] == x);
        lemma_part_of_section(snapshot, lines, elapsed_text, percents, master_percent, x);
    }
}

/// A section holds a line with every key and its value.
pub proof fn sections_hold_every_key(
    snapshot: ProgressStats,
    lines: Seq<LineView>,
    elapsed_text: Seq<char>,
    percents: Seq<Seq<char>>,
    master_percent: Seq<char>,
    key: Seq<char>,
)
    requires
        snapshot.wf(),
        snapshot@.key_values.contains_key(key),
    ensures
        section_lines(snapshot, lines, elapsed_text, percents, master_percent).contains(
            "  "@ + key + ": "@ + snapshot@.key_values[key],
        ),
{
    let keys = snapshot.key_values.keys();
    text_map::lemma_map_of(keys, snapshot.key_values.values());
    let i = choose|i: int| 0 <= i < keys.len() && keys[i] == key;
    let x = "  "@ + key + ": "@ + snapshot@.key_values[key];
    let items = key_value_items(snapshot.key_values);
    assert(items[i] == x);
    assert(headed("Key-Value Pairs:"@, items)[i + 2] == x);
    lemma_part_of_section(snapshot, lines, elapsed_text, percents, master_percent, x);
}

/// A section holds a line with every worker, its progress in per cent and its label.
pub proof fn sections_hold_every_worker(
    snapshot: ProgressStats,
    lines: Seq<LineView>,
    elapsed_text: Seq<char>,
    percents: Seq<Seq<char>>,
    master_percent: Seq<char>,
    i: int,
)
    requires
        snapshot.wf(),
        0 <= i < snapshot.worker_progress.keys().len(),
    ensures
        ({
            let name = snapshot.worker_progress.keys()[i];
            section_lines(snapshot, lines, elapsed_text, percents, master_percent).contains(
                "  "@ + name + ": "@ + percents[i] + "% - "@
                    + snapshot@.worker_progress[name].label,
            )
        }),
{
    let names = snapshot.worker_progress.keys();
    text_map::lemma_map_of(names, snapshot.worker_progress.values());
    let x = "  "@ + names[i] + ": "@ + percents[i] + "% - "@
        + snapshot@.worker_progress[names[i]].label;
    let items = worker_items(snapshot.worker_progress, percents);
    assert(items[i] == x);
    assert(headed("Workers:"@, items)[i + 2] == x);
    lemma_part_of_section(snapshot, lines, elapsed_text, percents, master_percent, x);
}

/// A section holds a line with the master progress in per cent and its label, if the progress is
/// above zero.
pub proof fn sections_hold_the_master_progress(
    snapshot: ProgressStats,
    lines: Seq<LineView>,
    elapsed_text: Seq<char>,
    percents: Seq<Seq<char>>,
    master_percent: Seq<char>,
)
    requires
        snapshot@.master_progress.progress.positive(),
    ensures
        section_lines(snapshot, lines, elapsed_text, percents, master_percent).contains(
            "Master: "@ + master_percent + "% - "@ + snapshot@.master_progress.label,
        ),
{
    let x = "Master: "@ + master_percent + "% - "@ + snapshot@.master_progress.label;
    assert(master_lines(snapshot@.master_progress, master_percent)[1] == x);
    lemma_part_of_section(snapshot, lines, elapsed_text, percents, master_percent, x);
}

/// The log lines stand at the end of a section under a heading, each with its severity, in order.
pub proof fn sections_end_with_the_log_lines(
    snapshot: ProgressStats,
    lines: Seq<LineView>,
    elapsed_text: Seq<char>,
    percents: Seq<Seq<char>>,
    master_percent: Seq<char>,
    i: int,
)
    requires
        0 <= i < lines.len(),
    ensures
        ({
            let all = section_lines(snapshot, lines, elapsed_text, percents, master_percent);
            let from = all.len() - 1 - lines.len();
            &&& from >= 5
            &&& all[from - 1] == "Log Lines:"@
            &&& all[from - 2].len() == 0
            &&& all[from + i] == "  ["@ + (match lines[i].severity {
                Severity::Info => "INFO"@,
                Severity::Warning => "WARN"@,
                Severity::Error => "ERROR"@,
                Severity::Verbose => "VERBOSE"@,
            }) + "] "@ + lines[i].message
        }),
{
    let items = log_items(lines);
    let logged_lines = headed("Log Lines:"@, items);
    let all = section_lines(snapshot, lines, elapsed_text, percents, master_percent);
    let n = all.len() - 1 - logged_lines.len();
    assert(n >= 3);
    assert(all[n] == logged_lines[0]);
    assert(all[n + 1] == logged_lines[1]);
    assert(all[n + 2 + i] == logged_lines[2 + i]);
    assert(logged_lines[2 + i] == items[i]);
}

/// A section has no line but these: there are three at the top and one at the end, one for each
/// text, one for each key, worker and log line, two for each heading, and two for the master gauge.
pub proof fn sections_hold_no_other_line(
    snapshot: ProgressStats,
    lines: Seq<LineView>,
    elapsed_text: Seq<char>,
    percents: Seq<Seq<char>>,
    master_percent: Seq<char>,
)
    ensures
        ({
            let all = section_lines(snapshot, lines, elapsed_text, percents, master_percent);
            let n = snapshot.key_values.keys().len() as int;
            let w = snapshot.worker_progress.keys().len() as int;
            let texts = (if snapshot@.state.len() > 0 {
                1int
            } else {
                0
            }) + (if snapshot@.window_name.len() > 0 {
                1int
            } else {
                0
            }) + (if snapshot@.exit_hint.len() > 0 {
                1int
            } else {
                0
            });
            let lists = (if n > 0 {
                n + 2
            } else {
                0
            }) + (if w > 0 {
                w + 2
            } else {
                0
            }) + (if lines.len() > 0 {
                lines.len() + 2
            } else {
                0
            });
            let master = if snapshot@.master_progress.progress.positive() {
                2int
            } else {
                0
            };
            all.len() == 4 + texts + lists + master
        }),
{
}

/// Each line of a section has a line break behind it; the rule is made of seventy equals signs.
pub proof fn lines_end_with_breaks(lines: Seq<Seq<char>>, line: Seq<char>)
    ensures
        with_breaks(Seq::<Seq<char>>::empty()).len() == 0,
        with_breaks(lines.push(line)) == with_breaks(lines) + line + seq!['\n'],
        RULE@.len() == 70,
        forall|i: int| 0 <= i < 70 ==> RULE@[i] == '=',
        FLUSH_INTERVAL_SECS == 5,
{
    reveal_strlit("\n");
    reveal_strlit("======================================================================");
    assert("\n"@ =~= seq!['\n']);
    assert(lines.push(line).drop_last() =~= lines);
}

/// Information and errors go to the summary, with just their text; warnings, details and all other
/// messages do not.
pub proof fn summaries_hold_information_and_errors(message: String, other: TuiMessage)
    ensures
        summary_of((TuiMessage::Line { message, severity: Severity::Info })) == Some(message@),
        summary_of((TuiMessage::Line { message, severity: Severity::Error })) == Some(message@),
        summary_of((TuiMessage::Line { message, severity: Severity::Warning })) is None,
        summary_of((TuiMessage::Line { message, severity: Severity::Verbose })) is None,
        !(other is Line) ==> summary_of(other) is None,
{
}

/// A running logger takes every message into its state and every line into its pending lines.
pub proof fn text_loggers_keep_lines_in_order(
    before: ProgressTextLogger,
    after: ProgressTextLogger,
    message: TuiMessage,
    r: Logged,
)
    requires
        logged(Some(before), Some(after), message, r),
    ensures
        after.snapshot@ == before.snapshot@.applied(message),
        message is Line ==> after.pending() == before.pending().push(
            (LineView { message: message->Line_message@, severity: message->Line_severity }),
        ),
        !(message is Line) ==> after.pending() == before.pending(),
        after.last_flushed_snapshot == before.last_flushed_snapshot,
        r is Taken,
{
    assert(message is Line ==> after.pending() =~= before.pending().push(
        (LineView { message: message->Line_message@, severity: message->Line_severity }),
    ));
    assert(!(message is Line) ==> after.pending() =~= before.pending());
}

/// A section is due every five seconds.
pub proof fn sections_are_due_every_five_seconds()
    ensures
        FLUSH_INTERVAL_SECS == 5,
        RULE@ == "======================================================================"@,
{
}

}
