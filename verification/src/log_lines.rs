//! Log lines, and the bounded list of the latest ones.

use crate::message::Severity;
use crate::text_map::Duplicate;
use std::collections::VecDeque;
use vstd::prelude::*;

verus! {

/// How many log lines a display keeps.
pub const MAX_LOG_LINES: usize = 100;

/// A line of the log.
#[derive(Debug)]
pub struct ProgressLogLine {
    pub message: String,
    pub severity: Severity,
}

/// The contents of a log line.
#[verifier::ext_equal]
pub struct LineView {
    pub message: Seq<char>,
    pub severity: Severity,
}

impl View for ProgressLogLine {
    type V = LineView;

    open spec fn view(&self) -> LineView {
        LineView { message: self.message@, severity: self.severity }
    }
}

impl Duplicate for ProgressLogLine {
    fn duplicate(&self) -> (r: Self) {
        ProgressLogLine { message: self.message.clone(), severity: self.severity }
    }
}

/// The contents of a list of log lines.
pub open spec fn line_views(lines: Seq<ProgressLogLine>) -> Seq<LineView> {
    lines.map_values(|l: ProgressLogLine| l@)
}

/// The last `n` items.
pub open spec fn latest<A>(s: Seq<A>, n: nat) -> Seq<A> {
    if s.len() <= n {
        s
    } else {
        s.skip(s.len() - n)
    }
}

/// Keeping the latest of the latest and what follows them is keeping the latest of all.
pub proof fn latest_of_latest<A>(s: Seq<A>, t: Seq<A>, n: nat)
    ensures
        latest(latest(s, n) + t, n) == latest(s + t, n),
{
    assert(latest(latest(s, n) + t, n) =~= latest(s + t, n));
}

/// The latest lines of a log.
#[derive(Debug)]
pub struct LogLines {
    lines: VecDeque<ProgressLogLine>,
}

impl View for LogLines {
    type V = Seq<LineView>;

    closed spec fn view(&self) -> Seq<LineView> {
        line_views(self.lines@)
    }
}

impl LogLines {
    /// No more lines than a display keeps.
    pub open spec fn wf(self) -> bool {
        self@.len() <= MAX_LOG_LINES
    }

    pub fn new() -> (r: LogLines)
        ensures
            r.wf(),
            r@ == Seq::<LineView>::empty(),
    {
        let r = LogLines { lines: VecDeque::new() };
        assert(r@ =~= Seq::<LineView>::empty());
        r
    }

    pub fn len(&self) -> (n: usize)
        ensures
            n == self@.len(),
    {
        self.lines.len()
    }

    /// A line, counted from the oldest one.
    pub fn line(&self, i: usize) -> (r: &ProgressLogLine)
        requires
            i < self@.len(),
        ensures
            r@ == self@[i as int],
    {
        &self.lines[i]
    }

    /// Adds a line at the end. The oldest line goes when there are too many.
    pub fn push(&mut self, line: ProgressLogLine)
        requires
            old(self).wf(),
        ensures
            final(self).wf(),
            final(self)@ == latest(old(self)@.push(line@), MAX_LOG_LINES as nat),
    {
        let ghost before = self@;
        self.lines.push_back(line);
        assert(self@ =~= before.push(line@));
        if self.lines.len() > MAX_LOG_LINES {
            let ghost full = self@;
            self.lines.pop_front();
            assert(self@ =~= full.skip(1));
        }
    }

    /// Adds lines at the end, one after the other.
    pub fn push_all(&mut self, lines: &Vec<ProgressLogLine>)
        requires
            old(self).wf(),
        ensures
            final(self).wf(),
            final(self)@ == latest(old(self)@ + line_views(lines@), MAX_LOG_LINES as nat),
    {
        let ghost before = self@;
        let mut i: usize = 0;
        assert(before + line_views(lines@.take(0)) =~= before);
        while i < lines.len()
            invariant
                i <= lines@.len(),
                self.wf(),
                self@ == latest(before + line_views(lines@.take(i as int)), MAX_LOG_LINES as nat),
            decreases lines@.len() - i,
        {
            let ghost so_far = before + line_views(lines@.take(i as int));
            let ghost line = lines@[i as int]@;
            self.push(lines[i].duplicate());
            proof {
                latest_of_latest(so_far, seq![line], MAX_LOG_LINES as nat);
                assert(latest(so_far, MAX_LOG_LINES as nat).push(line) =~= latest(
                    so_far,
                    MAX_LOG_LINES as nat,
                ) + seq![line]);
                assert(so_far + seq![line] =~= before + line_views(lines@.take(i + 1)));
            }
            i = i + 1;
        }
        assert(lines@.take(lines@.len() as int) =~= lines@);
    }
}

impl Duplicate for LogLines {
    fn duplicate(&self) -> (r: Self) {
        let mut lines: VecDeque<ProgressLogLine> = VecDeque::new();
        let mut i: usize = 0;
        while i < self.lines.len()
            invariant
                i <= self.lines@.len(),
                lines@.len() == i,
                forall|j: int| 0 <= j < i ==> (#[trigger] lines@[j])@ == self.lines@[j]@,
            decreases self.lines@.len() - i,
        {
            let line = self.lines[i].duplicate();
            lines.push_back(line);
            i = i + 1;
        }
        let r = LogLines { lines };
        assert(r@ =~= self@);
        r
    }
}

/// A bounded log keeps the last hundred lines, each where it stands from the end.
pub proof fn the_last_hundred_stay<A>(s: Seq<A>, from_end: int)
    ensures
        latest(s, MAX_LOG_LINES as nat).len() == (if s.len() < 100 {
            s.len() as int
        } else {
            100
        }),
        0 <= from_end < s.len() && from_end < 100 ==> latest(s, MAX_LOG_LINES as nat)[latest(
            s,
            MAX_LOG_LINES as nat,
        ).len() - 1 - from_end] == s[s.len() - 1 - from_end],
{
}

}
