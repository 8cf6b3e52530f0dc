//! What progress screens have in common: areas, lines, scrolling and widgets.

use crate::decimal;
use crate::float_bits::Float32;
use crate::log_lines::{LineView, LogLines, MAX_LOG_LINES};
use crate::message::Severity;
use crate::progress_tui_logger;
use crate::progress_tui_protocol::{GaugeView, ProgressGaugeState};
use crate::text;
use crate::text_map::TextMap;
use vstd::prelude::*;

verus! {

/// The widest screen on which text is wrapped. Wrapping adds up widths in sixteen bits, which
/// come to less than four times the width of the screen.
pub const MAX_SCREEN_WIDTH: u16 = u16::MAX / 4;

// ---------------------------------------------------------------------------
// Areas
// ---------------------------------------------------------------------------

/// A rectangle of the screen.
#[derive(Clone, Copy, Debug, PartialEq, Eq, Structural)]
pub struct Rect {
    pub x: u16,
    pub y: u16,
    pub width: u16,
    pub height: u16,
}

/// A sum in sixteen bits that stops at the largest number.
pub open spec fn capped_sum(a: u16, b: u16) -> u16 {
    if a + b > u16::MAX {
        u16::MAX
    } else {
        (a + b) as u16
    }
}

/// A difference that stops at zero.
pub open spec fn floored_difference(a: int, b: int) -> int {
    if a >= b {
        a - b
    } else {
        0
    }
}

impl Rect {
    pub open spec fn nothing() -> Rect {
        Rect { x: 0, y: 0, width: 0, height: 0 }
    }

    /// The cell at column `x` and row `y` lies in the rectangle.
    pub open spec fn holds(self, x: u16, y: u16) -> bool {
        self.x <= x < capped_sum(self.x, self.width) && self.y <= y < capped_sum(
            self.y,
            self.height,
        )
    }

    /// The rectangle inside the border.
    pub open spec fn inside_border(self) -> Rect {
        let right = capped_sum(self.x, self.width);
        let bottom = capped_sum(self.y, self.height);
        let x = capped_sum(self.x, 1);
        let y = capped_sum(self.y, 1);
        Rect {
            x: if x < right {
                x
            } else {
                right
            },
            y: if y < bottom {
                y
            } else {
                bottom
            },
            width: floored_difference(self.width as int, 2) as u16,
            height: floored_difference(self.height as int, 2) as u16,
        }
    }
}

pub fn rect_contains(rect: Rect, x: u16, y: u16) -> (r: bool)
    ensures
        r == rect.holds(x, y),
{
    let max_x: u16 = rect.x.saturating_add(rect.width);
    let max_y: u16 = rect.y.saturating_add(rect.height);
    x >= rect.x && x < max_x && y >= rect.y && y < max_y
}

/// The height inside the border of an area.
pub fn log_inner_height(area: Rect) -> (r: usize)
    ensures
        r == floored_difference(area.height as int, 2),
        r == area.inside_border().height,
{
    area.height.saturating_sub(2) as usize
}

/// The width inside the border of an area.
pub fn log_inner_width(area: Rect) -> (r: usize)
    ensures
        r == floored_difference(area.width as int, 2),
        r == area.inside_border().width,
{
    area.width.saturating_sub(2) as usize
}

/// `ratatui`'s `Block::inner`, of a block with borders on all sides: what is left of an area
/// inside the border, one cell in from each side as far as there are cells.
#[verifier::external_body]
pub(crate) fn block_inner(area: Rect) -> (r: Rect)
    ensures
        r == area.inside_border(),
{
    let block = ratatui::widgets::Block::default().borders(ratatui::widgets::Borders::ALL);
    let Rect { x, y, width, height } = area;
    let inner = block.inner(ratatui::layout::Rect { x, y, width, height });
    Rect { x: inner.x, y: inner.y, width: inner.width, height: inner.height }
}

/// How an area is divided.
#[derive(Clone, Copy, Debug, PartialEq, Eq, Structural)]
pub enum Direction {
    Horizontal,
    Vertical,
}

/// What is asked of the size of a part.
#[derive(Clone, Copy, Debug, PartialEq, Eq, Structural)]
pub enum SizeRule {
    Min(u16),
    Length(u16),
    Percentage(u16),
}

/// The parts divide an area across: there is one for each rule, and each spans the whole of the
/// other direction and no more than the area.
pub open spec fn divides(parts: Seq<Rect>, area: Rect, direction: Direction, n: nat) -> bool {
    &&& parts.len() == n
    &&& forall|i: int|
        0 <= i < parts.len() ==> {
            let part = #[trigger] parts[i];
            match direction {
                Direction::Vertical => {
                    part.x == area.x && part.width == area.width && part.height <= area.height
                },
                Direction::Horizontal => {
                    part.y == area.y && part.height == area.height && part.width <= area.width
                },
            }
        }
}

/// The parts are ones that `ratatui`'s `Layout::split` can give for an area, a direction and
/// rules.
pub uninterp spec fn is_split(
    area: Rect,
    direction: Direction,
    rules: Seq<SizeRule>,
    parts: Seq<Rect>,
) -> bool;

/// `ratatui`'s `Layout::split` divides an area into one part for each rule. The parts span the
/// area in the other direction and do not exceed it in this one. How the area is shared out
/// between rules that cannot all be met is left open, as `ratatui` leaves it: its solver settles
/// that in no fixed way, so that two calls with the same arguments may give different parts.
#[verifier::external_body]
pub(crate) fn split_area(area: Rect, direction: Direction, rules: &Vec<SizeRule>) -> (r: Vec<Rect>)
    ensures
        divides(r@, area, direction, rules@.len()),
        is_split(area, direction, rules@, r@),
{
    let Rect { x, y, width, height } = area;
    let constraints = rules.iter().map(|rule| match rule {
        SizeRule::Min(n) => ratatui::layout::Constraint::Min(*n),
        SizeRule::Length(n) => ratatui::layout::Constraint::Length(*n),
        SizeRule::Percentage(n) => ratatui::layout::Constraint::Percentage(*n),
    });
    let layout = match direction {
        Direction::Horizontal => ratatui::layout::Layout::horizontal(constraints),
        Direction::Vertical => ratatui::layout::Layout::vertical(constraints),
    };
    let parts = layout.split(ratatui::layout::Rect { x, y, width, height });
    parts.iter().map(|p| Rect { x: p.x, y: p.y, width: p.width, height: p.height }).collect()
}

// ---------------------------------------------------------------------------
// Lines
// ---------------------------------------------------------------------------

#[derive(Clone, Copy, Debug, PartialEq, Eq, Structural)]
pub enum Colour {
    White,
    Yellow,
    Red,
    Green,
    LightBlue,
}

/// A line of a screen, in a colour or without one.
#[derive(Debug)]
pub struct ScreenLine {
    pub text: String,
    pub colour: Option<Colour>,
}

/// The contents of a [`ScreenLine`].
#[verifier::ext_equal]
pub struct ScreenLineView {
    pub text: Seq<char>,
    pub colour: Option<Colour>,
}

impl View for ScreenLine {
    type V = ScreenLineView;

    open spec fn view(&self) -> ScreenLineView {
        ScreenLineView { text: self.text@, colour: self.colour }
    }
}

/// The contents of a list of lines.
pub open spec fn screen_lines(lines: Seq<ScreenLine>) -> Seq<ScreenLineView> {
    lines.map_values(|l: ScreenLine| l@)
}

/// A line without a colour.
pub open spec fn plain_line(text: Seq<char>) -> ScreenLineView {
    ScreenLineView { text, colour: None }
}

/// How many rows lines take up when they are wrapped at a width.
pub uninterp spec fn wrapped_rows(lines: Seq<ScreenLineView>, width: u16, trim: bool) -> nat;

/// `ratatui`'s `Paragraph::line_count`: how many rows a paragraph takes up when it is wrapped at
/// words to a width. The number is a function of the lines, the width and whether leading white
/// space is dropped; how `ratatui` breaks lines is left open.
#[verifier::external_body]
fn paragraph_line_count(lines: &Vec<ScreenLine>, width: u16, trim: bool) -> (r: usize)
    requires
        width <= MAX_SCREEN_WIDTH,
    ensures
        r == wrapped_rows(screen_lines(lines@), width, trim),
{
    let style = ratatui::style::Style::default();
    let lines: Vec<ratatui::text::Line> = lines.iter().map(|line| match line.colour {
        Some(_) => ratatui::text::Span::styled(line.text.clone(), style).into(),
        None => line.text.clone().into(),
    }).collect();
    ratatui::widgets::Paragraph::new(lines).wrap(ratatui::widgets::Wrap { trim }).line_count(width)
}

/// How many rows lines take up inside a border.
pub open spec fn rows_inside(lines: Seq<ScreenLineView>, area: Rect, trim: bool) -> nat {
    let width = area.inside_border().width;
    if width == 0 {
        0
    } else {
        wrapped_rows(lines, width, trim)
    }
}

/// How many rows lines take up inside the border of an area.
pub fn wrapped_lines_height(lines: &Vec<ScreenLine>, area: Rect, trim: bool) -> (r: usize)
    requires
        area.width <= MAX_SCREEN_WIDTH,
    ensures
        r == rows_inside(screen_lines(lines@), area, trim),
{
    let inner_width: usize = log_inner_width(area);
    if inner_width == 0 {
        return 0;
    }
    paragraph_line_count(lines, inner_width as u16, trim)
}

/// The colour of a log line.
pub open spec fn severity_colour(severity: Severity) -> Colour {
    match severity {
        Severity::Info => Colour::White,
        Severity::Warning => Colour::Yellow,
        Severity::Error => Colour::Red,
        Severity::Verbose => Colour::White,
    }
}

/// A log line on a screen.
pub open spec fn log_line(line: LineView) -> ScreenLineView {
    ScreenLineView { text: line.message, colour: Some(severity_colour(line.severity)) }
}

/// The log lines from `from` to `to` on a screen.
pub open spec fn log_lines_between(lines: Seq<LineView>, from: int, to: int) -> Seq<
    ScreenLineView,
> {
    lines.subrange(from, to).map_values(|l: LineView| log_line(l))
}

/// What a log without lines shows.
pub open spec fn no_logs() -> Seq<ScreenLineView> {
    seq![plain_line("No logs yet"@)]
}

/// All log lines on a screen.
pub open spec fn rendered_log(lines: Seq<LineView>) -> Seq<ScreenLineView> {
    if lines.len() == 0 {
        no_logs()
    } else {
        log_lines_between(lines, 0, lines.len() as int)
    }
}

fn no_logs_yet() -> (out: Vec<ScreenLine>)
    ensures
        screen_lines(out@) == no_logs(),
{
    let mut out: Vec<ScreenLine> = Vec::new();
    out.push(ScreenLine { text: "No logs yet".to_owned(), colour: None });
    assert(screen_lines(out@) =~= no_logs());
    out
}

fn render_between(lines: &LogLines, from: usize, to: usize) -> (out: Vec<ScreenLine>)
    requires
        from <= to <= lines@.len(),
    ensures
        screen_lines(out@) == log_lines_between(lines@, from as int, to as int),
{
    let mut out: Vec<ScreenLine> = Vec::new();
    let mut i: usize = from;
    assert(screen_lines(out@) =~= log_lines_between(lines@, from as int, from as int));
    while i < to
        invariant
            from <= i <= to <= lines@.len(),
            screen_lines(out@) == log_lines_between(lines@, from as int, i as int),
        decreases to - i,
    {
        let line = lines.line(i);
        let colour = match line.severity {
            Severity::Info => Colour::White,
            Severity::Warning => Colour::Yellow,
            Severity::Error => Colour::Red,
            Severity::Verbose => Colour::White,
        };
        let ghost before = out@;
        out.push(ScreenLine { text: line.message.clone(), colour: Some(colour) });
        assert(screen_lines(out@) =~= screen_lines(before).push(log_line(lines@[i as int])));
        assert(log_lines_between(lines@, from as int, i + 1) =~= log_lines_between(
            lines@,
            from as int,
            i as int,
        ).push(log_line(lines@[i as int])));
        i = i + 1;
    }
    out
}

/// All log lines on a screen, or the remark that there are none.
pub fn rendered_log_lines(lines: &LogLines) -> (out: Vec<ScreenLine>)
    ensures
        screen_lines(out@) == rendered_log(lines@),
{
    if lines.len() == 0 {
        return no_logs_yet();
    }
    render_between(lines, 0, lines.len())
}

/// The largest number of rows that a window can be scrolled up.
pub open spec fn scroll_limit(total: int, viewport: int) -> int {
    floored_difference(
        total,
        if viewport >= 1 {
            viewport
        } else {
            1
        },
    )
}

/// The end of the lines that a window shows, when it is scrolled up by `scroll`.
pub open spec fn window_end(total: int, viewport: int, scroll: int) -> int {
    let limit = scroll_limit(total, viewport);
    total - (if scroll < limit {
        scroll
    } else {
        limit
    })
}

/// The start of the lines that a window shows.
pub open spec fn window_start(total: int, viewport: int, scroll: int) -> int {
    scroll_limit(window_end(total, viewport, scroll), viewport)
}

/// The log lines that a window shows, when it is scrolled up by `scroll_from_bottom`.
pub fn visible_log_lines(
    lines: &LogLines,
    scroll_from_bottom: usize,
    viewport_height: usize,
) -> (out: Vec<ScreenLine>)
    ensures
        screen_lines(out@) == (if lines@.len() == 0 {
            no_logs()
        } else {
            let total = lines@.len() as int;
            log_lines_between(
                lines@,
                window_start(total, viewport_height as int, scroll_from_bottom as int),
                window_end(total, viewport_height as int, scroll_from_bottom as int),
            )
        }),
{
    if lines.len() == 0 {
        return no_logs_yet();
    }
    let height: usize = if viewport_height > 1 {
        viewport_height
    } else {
        1
    };
    let total: usize = lines.len();
    let max_scroll: usize = total.saturating_sub(height);
    let clamped_scroll: usize = if scroll_from_bottom < max_scroll {
        scroll_from_bottom
    } else {
        max_scroll
    };
    let end: usize = total.saturating_sub(clamped_scroll);
    let start: usize = end.saturating_sub(height);
    render_between(lines, start, end)
}

/// A window on a log shows as many lines as it is high, as far as there are lines, and it shows
/// the last ones when it is not scrolled.
pub proof fn window_is_full(total: int, viewport: int, scroll: int)
    requires
        total >= 0,
        viewport >= 1,
        scroll >= 0,
    ensures
        0 <= window_start(total, viewport, scroll) <= window_end(total, viewport, scroll) <= total,
        window_end(total, viewport, scroll) - window_start(total, viewport, scroll) == (
        if total < viewport {
            total
        } else {
            viewport
        }),
        scroll == 0 ==> window_end(total, viewport, scroll) == total,
{
}

/// The keys of a list in the order in which they are shown: those of the fixed order first, then
/// the others in ascending order.
pub open spec fn ordered_keys(key_values: TextMap<String>, key_order: Seq<Seq<char>>) -> Seq<
    Seq<char>,
> {
    progress_tui_logger::keys_where(key_order, |k: Seq<char>| key_values@.contains_key(k))
        + progress_tui_logger::keys_where(
        key_values.keys(),
        |k: Seq<char>| !key_order.contains(k),
    )
}

/// A key and its value on a screen.
pub open spec fn key_value_line(key: Seq<char>, value: Seq<char>) -> ScreenLineView {
    plain_line(key + ": "@ + value)
}

/// The keys and values on a screen.
pub open spec fn key_value_lines(key_values: TextMap<String>, keys: Seq<Seq<char>>) -> Seq<
    ScreenLineView,
> {
    keys.map_values(|k: Seq<char>| key_value_line(k, key_values@[k]))
}

fn is_listed(key: &str, list: &Vec<String>) -> (r: bool)
    ensures
        r == text::texts(list@).contains(key@),
{
    let ghost views = text::texts(list@);
    let mut i: usize = 0;
    while i < list.len()
        invariant
            views == text::texts(list@),
            i <= views.len(),
            forall|j: int| 0 <= j < i ==> views[j] != key@,
        decreases views.len() - i,
    {
        assert(views[i as int] == list@[i as int]@);
        if text::same_text(list[i].as_str(), key) {
            return true;
        }
        i = i + 1;
    }
    false
}

/// The keys and values of a list, in the order in which they are shown.
pub fn ordered_key_value_lines(key_values: &TextMap<String>, key_order: &Vec<String>) -> (out: Vec<
    ScreenLine,
>)
    requires
        key_values.wf(),
    ensures
        screen_lines(out@) == key_value_lines(
            *key_values,
            ordered_keys(*key_values, text::texts(key_order@)),
        ),
{
    let ghost order = text::texts(key_order@);
    let ghost known = |k: Seq<char>| key_values@.contains_key(k);
    let ghost unknown = |k: Seq<char>| !order.contains(k);
    let mut out: Vec<ScreenLine> = Vec::new();
    let mut i: usize = 0;
    assert(screen_lines(out@) =~= key_value_lines(
        *key_values,
        progress_tui_logger::keys_where(order.take(0), known),
    ));
    while i < key_order.len()
        invariant
            key_values.wf(),
            order == text::texts(key_order@),
            known == |k: Seq<char>| key_values@.contains_key(k),
            i <= order.len(),
            screen_lines(out@) == key_value_lines(
                *key_values,
                progress_tui_logger::keys_where(order.take(i as int), known),
            ),
        decreases order.len() - i,
    {
        let key = &key_order[i];
        let ghost so_far = order.take(i as int);
        assert(order.take(i + 1).drop_last() =~= so_far);
        assert(order[i as int] == key@);
        if let Some(value) = key_values.get(key.as_str()) {
            let ghost before = out@;
            out.push(
                ScreenLine {
                    text: text::join3(key.as_str(), ": ", value.as_str()),
                    colour: None,
                },
            );
            assert(screen_lines(out@) =~= screen_lines(before).push(
                key_value_line(key@, key_values@[key@]),
            ));
            assert(key_value_lines(
                *key_values,
                progress_tui_logger::keys_where(so_far, known).push(key@),
            ) =~= key_value_lines(
                *key_values,
                progress_tui_logger::keys_where(so_far, known),
            ).push(key_value_line(key@, key_values@[key@])));
        }
        i = i + 1;
    }
    assert(order.take(order.len() as int) =~= order);
    let ghost first = progress_tui_logger::keys_where(order, known);
    let mut j: usize = 0;
    assert(first + progress_tui_logger::keys_where(key_values.keys().take(0), unknown) =~= first);
    while j < key_values.len()
        invariant
            key_values.wf(),
            order == text::texts(key_order@),
            unknown == |k: Seq<char>| !order.contains(k),
            j <= key_values.keys().len(),
            screen_lines(out@) == key_value_lines(
                *key_values,
                first + progress_tui_logger::keys_where(
                    key_values.keys().take(j as int),
                    unknown,
                ),
            ),
        decreases key_values.keys().len() - j,
    {
        let key = key_values.key_at(j);
        let ghost so_far = key_values.keys().take(j as int);
        assert(key_values.keys().take(j + 1).drop_last() =~= so_far);
        if !is_listed(key.as_str(), key_order) {
            let value = key_values.value_at(j);
            let ghost before = out@;
            out.push(
                ScreenLine {
                    text: text::join3(key.as_str(), ": ", value.as_str()),
                    colour: None,
                },
            );
            proof {
                let rest = progress_tui_logger::keys_where(so_far, unknown);
                assert(screen_lines(out@) =~= screen_lines(before).push(
                    key_value_line(key@, key_values@[key@]),
                ));
                assert(first + rest.push(key@) =~= (first + rest).push(key@));
                assert(key_value_lines(*key_values, (first + rest).push(key@)) =~= key_value_lines(
                    *key_values,
                    first + rest,
                ).push(key_value_line(key@, key_values@[key@])));
            }
        }
        j = j + 1;
    }
    assert(key_values.keys().take(key_values.keys().len() as int) =~= key_values.keys());
    out
}

/// Every key is shown, and nothing but keys.
pub proof fn every_key_is_shown(
    key_values: TextMap<String>,
    key_order: Seq<Seq<char>>,
    key: Seq<char>,
)
    ensures
        key_values@.contains_key(key) == ordered_keys(key_values, key_order).contains(key),
{
    let known = |k: Seq<char>| key_values@.contains_key(k);
    let unknown = |k: Seq<char>| !key_order.contains(k);
    let first = progress_tui_logger::keys_where(key_order, known);
    let rest = progress_tui_logger::keys_where(key_values.keys(), unknown);
    progress_tui_logger::lemma_keys_where(key_order, known);
    progress_tui_logger::lemma_keys_where(key_values.keys(), unknown);
    assert((first + rest).contains(key) == (first.contains(key) || rest.contains(key))) by {
        if first.contains(key) {
            let i = choose|i: int| 0 <= i < first.len() && first[i] == key;
            assert((first + rest)[i] == key);
        }
        if rest.contains(key) {
            let i = choose|i: int| 0 <= i < rest.len() && rest[i] == key;
            assert((first + rest)[first.len() + i] == key);
        }
        if (first + rest).contains(key) {
            let i = choose|i: int| 0 <= i < (first + rest).len() && (first + rest)[i] == key;
            if i < first.len() {
                assert(first[i] == key);
            } else {
                assert(rest[i - first.len()] == key);
            }
        }
    }
}

// ---------------------------------------------------------------------------
// Scrolling
// ---------------------------------------------------------------------------

/// The two windows at the top of a screen, and how far each is scrolled up.
#[derive(Clone, Copy, Debug, PartialEq, Eq, Structural)]
pub struct TopWindows {
    pub stats_scroll_from_bottom: usize,
    pub stats_viewport_height: usize,
    pub log_scroll_from_bottom: usize,
    pub log_viewport_height: usize,
    pub stats_area: Rect,
    pub log_area: Rect,
}

/// A sum that stops at the largest number.
pub open spec fn capped_count(a: usize, b: usize) -> usize {
    if a + b > usize::MAX {
        usize::MAX
    } else {
        (a + b) as usize
    }
}

impl TopWindows {
    pub open spec fn initial() -> TopWindows {
        TopWindows {
            stats_scroll_from_bottom: 0,
            stats_viewport_height: 1,
            log_scroll_from_bottom: 0,
            log_viewport_height: 1,
            stats_area: Rect::nothing(),
            log_area: Rect::nothing(),
        }
    }

    /// The windows after the window under the mouse was scrolled up.
    pub open spec fn scrolled_up(self, x: u16, y: u16, amount: usize) -> TopWindows {
        if self.stats_area.holds(x, y) {
            TopWindows {
                stats_scroll_from_bottom: capped_count(self.stats_scroll_from_bottom, amount),
                ..self
            }
        } else if self.log_area.holds(x, y) {
            TopWindows {
                log_scroll_from_bottom: capped_count(self.log_scroll_from_bottom, amount),
                ..self
            }
        } else {
            self
        }
    }

    /// The windows after the window under the mouse was scrolled down.
    pub open spec fn scrolled_down(self, x: u16, y: u16, amount: usize) -> TopWindows {
        if self.stats_area.holds(x, y) {
            TopWindows {
                stats_scroll_from_bottom: floored_difference(
                    self.stats_scroll_from_bottom as int,
                    amount as int,
                ) as usize,
                ..self
            }
        } else if self.log_area.holds(x, y) {
            TopWindows {
                log_scroll_from_bottom: floored_difference(
                    self.log_scroll_from_bottom as int,
                    amount as int,
                ) as usize,
                ..self
            }
        } else {
            self
        }
    }

    /// The windows with the stats window fitted to its height and its number of rows.
    pub open spec fn stats_fitted(self, area: Rect, rows: usize) -> TopWindows {
        let viewport = area.inside_border().height as usize;
        let limit = scroll_limit(rows as int, viewport as int);
        TopWindows {
            stats_viewport_height: viewport,
            stats_scroll_from_bottom: if self.stats_scroll_from_bottom > limit {
                limit as usize
            } else {
                self.stats_scroll_from_bottom
            },
            ..self
        }
    }

    /// The windows with the log window fitted to its height and its number of rows.
    pub open spec fn log_fitted(self, area: Rect, rows: usize) -> TopWindows {
        let viewport = area.inside_border().height as usize;
        let limit = scroll_limit(rows as int, viewport as int);
        TopWindows {
            log_viewport_height: viewport,
            log_scroll_from_bottom: if self.log_scroll_from_bottom > limit {
                limit as usize
            } else {
                self.log_scroll_from_bottom
            },
            ..self
        }
    }

    pub fn new() -> (r: TopWindows)
        ensures
            r == TopWindows::initial(),
    {
        let nothing = Rect { x: 0, y: 0, width: 0, height: 0 };
        TopWindows {
            stats_scroll_from_bottom: 0,
            stats_viewport_height: 1,
            log_scroll_from_bottom: 0,
            log_viewport_height: 1,
            stats_area: nothing,
            log_area: nothing,
        }
    }

    pub fn scroll_log_up(&mut self, amount: usize)
        ensures
            *final(self) == (TopWindows {
                log_scroll_from_bottom: capped_count(old(self).log_scroll_from_bottom, amount),
                ..*old(self)
            }),
    {
        self.log_scroll_from_bottom = self.log_scroll_from_bottom.saturating_add(amount);
    }

    pub fn scroll_log_down(&mut self, amount: usize)
        ensures
            *final(self) == (TopWindows {
                log_scroll_from_bottom: floored_difference(
                    old(self).log_scroll_from_bottom as int,
                    amount as int,
                ) as usize,
                ..*old(self)
            }),
    {
        self.log_scroll_from_bottom = self.log_scroll_from_bottom.saturating_sub(amount);
    }

    pub fn scroll_stats_up(&mut self, amount: usize)
        ensures
            *final(self) == (TopWindows {
                stats_scroll_from_bottom: capped_count(
                    old(self).stats_scroll_from_bottom,
                    amount,
                ),
                ..*old(self)
            }),
    {
        self.stats_scroll_from_bottom = self.stats_scroll_from_bottom.saturating_add(amount);
    }

    pub fn scroll_stats_down(&mut self, amount: usize)
        ensures
            *final(self) == (TopWindows {
                stats_scroll_from_bottom: floored_difference(
                    old(self).stats_scroll_from_bottom as int,
                    amount as int,
                ) as usize,
                ..*old(self)
            }),
    {
        self.stats_scroll_from_bottom = self.stats_scroll_from_bottom.saturating_sub(amount);
    }

    /// Scrolls the window under the mouse up.
    pub fn scroll_top_window_up(&mut self, mouse_x: u16, mouse_y: u16, amount: usize)
        ensures
            *final(self) == old(self).scrolled_up(mouse_x, mouse_y, amount),
    {
        if rect_contains(self.stats_area, mouse_x, mouse_y) {
            self.scroll_stats_up(amount);
        } else if rect_contains(self.log_area, mouse_x, mouse_y) {
            self.scroll_log_up(amount);
        }
    }

    /// Scrolls the window under the mouse down.
    pub fn scroll_top_window_down(&mut self, mouse_x: u16, mouse_y: u16, amount: usize)
        ensures
            *final(self) == old(self).scrolled_down(mouse_x, mouse_y, amount),
    {
        if rect_contains(self.stats_area, mouse_x, mouse_y) {
            self.scroll_stats_down(amount);
        } else if rect_contains(self.log_area, mouse_x, mouse_y) {
            self.scroll_log_down(amount);
        }
    }

    pub fn set_top_window_areas(&mut self, stats_area: Rect, log_area: Rect)
        ensures
            *final(self) == (TopWindows { stats_area, log_area, ..*old(self) }),
    {
        self.stats_area = stats_area;
        self.log_area = log_area;
    }

    /// Takes the height of the stats window, and keeps its scroll within its rows.
    pub fn fit_stats(&mut self, area: Rect, stats_line_count: usize)
        ensures
            *final(self) == old(self).stats_fitted(area, stats_line_count),
    {
        self.stats_viewport_height = log_inner_height(area);
        self.clamp_stats_scroll(stats_line_count);
    }

    /// Takes the height of the log window, and keeps its scroll within its rows.
    pub fn fit_log(&mut self, area: Rect, log_line_count: usize)
        ensures
            *final(self) == old(self).log_fitted(area, log_line_count),
    {
        self.log_viewport_height = log_inner_height(area);
        self.clamp_log_scroll(log_line_count);
    }

    pub fn clamp_stats_scroll(&mut self, stats_line_count: usize)
        ensures
            *final(self) == (TopWindows {
                stats_scroll_from_bottom: final(self).stats_scroll_from_bottom,
                ..*old(self)
            }),
            final(self).stats_scroll_from_bottom == ({
                let limit = scroll_limit(
                    stats_line_count as int,
                    old(self).stats_viewport_height as int,
                );
                if old(self).stats_scroll_from_bottom > limit {
                    limit
                } else {
                    old(self).stats_scroll_from_bottom as int
                }
            }),
    {
        let max_scroll: usize = max_scroll(stats_line_count, self.stats_viewport_height);
        if self.stats_scroll_from_bottom > max_scroll {
            self.stats_scroll_from_bottom = max_scroll;
        }
    }

    pub fn clamp_log_scroll(&mut self, log_line_count: usize)
        ensures
            *final(self) == (TopWindows {
                log_scroll_from_bottom: final(self).log_scroll_from_bottom,
                ..*old(self)
            }),
            final(self).log_scroll_from_bottom == ({
                let limit = scroll_limit(
                    log_line_count as int,
                    old(self).log_viewport_height as int,
                );
                if old(self).log_scroll_from_bottom > limit {
                    limit
                } else {
                    old(self).log_scroll_from_bottom as int
                }
            }),
    {
        let max_scroll: usize = max_scroll(log_line_count, self.log_viewport_height);
        if self.log_scroll_from_bottom > max_scroll {
            self.log_scroll_from_bottom = max_scroll;
        }
    }
}

/// The largest number of rows that a window can be scrolled up.
pub fn max_scroll(line_count: usize, viewport_height: usize) -> (r: usize)
    ensures
        r == scroll_limit(line_count as int, viewport_height as int),
{
    let height: usize = if viewport_height > 1 {
        viewport_height
    } else {
        1
    };
    line_count.saturating_sub(height)
}

/// Scrolling down undoes scrolling up by the same amount, unless the scroll went beyond the
/// largest number.
pub proof fn scrolling_down_undoes_scrolling_up(
    windows: TopWindows,
    x: u16,
    y: u16,
    amount: usize,
)
    requires
        windows.stats_scroll_from_bottom + amount <= usize::MAX,
        windows.log_scroll_from_bottom + amount <= usize::MAX,
    ensures
        windows.scrolled_up(x, y, amount).scrolled_down(x, y, amount) == windows,
{
}

/// A window that is fitted to its rows is scrolled no further up than its first row.
pub proof fn fitted_windows_stay_on_their_rows(windows: TopWindows, area: Rect, rows: usize)
    ensures
        windows.stats_fitted(area, rows).stats_scroll_from_bottom <= scroll_limit(
            rows as int,
            area.inside_border().height as int,
        ),
        windows.log_fitted(area, rows).log_scroll_from_bottom <= scroll_limit(
            rows as int,
            area.inside_border().height as int,
        ),
        windows.stats_fitted(area, rows).stats_fitted(area, rows) == windows.stats_fitted(
            area,
            rows,
        ),
        windows.log_fitted(area, rows).log_fitted(area, rows) == windows.log_fitted(area, rows),
{
}

// ---------------------------------------------------------------------------
// Widgets
// ---------------------------------------------------------------------------

/// What stands in a paragraph.
#[derive(Debug)]
pub enum Body {
    Lines(Vec<ScreenLine>),
    /// A text with its own line breaks.
    Text(String),
}

/// A part of a screen. A widget with a title has a border.
#[derive(Debug)]
pub enum Widget {
    Paragraph { body: Body, title: Option<String>, scroll: u16, trim: Option<bool>, area: Rect },
    Frame { heading: String, area: Rect },
    Gauge {
        label: String,
        progress: Float32,
        colour: Colour,
        title: Option<String>,
        area: Rect,
    },
}

#[verifier::ext_equal]
pub enum BodyView {
    Lines(Seq<ScreenLineView>),
    Text(Seq<char>),
}

/// The contents of a [`Widget`].
#[verifier::ext_equal]
pub enum WidgetView {
    Paragraph {
        body: BodyView,
        title: Option<Seq<char>>,
        scroll: u16,
        trim: Option<bool>,
        area: Rect,
    },
    Frame { heading: Seq<char>, area: Rect },
    Gauge {
        label: Seq<char>,
        progress: Float32,
        colour: Colour,
        title: Option<Seq<char>>,
        area: Rect,
    },
}

impl View for Body {
    type V = BodyView;

    open spec fn view(&self) -> BodyView {
        match self {
            Body::Lines(lines) => BodyView::Lines(screen_lines(lines@)),
            Body::Text(text) => BodyView::Text(text@),
        }
    }
}

impl View for Widget {
    type V = WidgetView;

    open spec fn view(&self) -> WidgetView {
        match self {
            Widget::Paragraph { body, title, scroll, trim, area } => WidgetView::Paragraph {
                body: body@,
                title: progress_tui_logger::option_view(*title),
                scroll: *scroll,
                trim: *trim,
                area: *area,
            },
            Widget::Frame { heading, area } => WidgetView::Frame { heading: heading@, area: *area },
            Widget::Gauge { label, progress, colour, title, area } => WidgetView::Gauge {
                label: label@,
                progress: *progress,
                colour: *colour,
                title: progress_tui_logger::option_view(*title),
                area: *area,
            },
        }
    }
}

/// The contents of a list of widgets.
pub open spec fn widget_views(widgets: Seq<Widget>) -> Seq<WidgetView> {
    widgets.map_values(|w: Widget| w@)
}

/// The row from which a scrolled paragraph is shown, in sixteen bits.
pub open spec fn scroll_from_top(limit: int, scroll_from_bottom: int) -> u16 {
    floored_difference(limit, scroll_from_bottom) as usize as u16
}

/// The window with the state, which is there only if the state says something.
pub open spec fn state_widgets(state: Seq<char>, area: Rect) -> Seq<WidgetView> {
    if text::blank(state) {
        Seq::empty()
    } else {
        seq![
            WidgetView::Paragraph {
                body: BodyView::Text(state),
                title: Some("State"@),
                scroll: 0,
                trim: Some(true),
                area,
            },
        ]
    }
}

pub fn state_window(state: &str, area: Rect) -> (r: Option<Widget>)
    ensures
        match r {
            Some(w) => state_widgets(state@, area) == seq![w@],
            None => state_widgets(state@, area) == Seq::<WidgetView>::empty(),
        },
{
    if text::is_blank(state) {
        return None;
    }
    Some(
        Widget::Paragraph {
            body: Body::Text(state.to_owned()),
            title: Some("State".to_owned()),
            scroll: 0,
            trim: Some(true),
            area,
        },
    )
}

/// The window with the keys and values, once the windows are fitted to its rows.
pub open spec fn stats_widget(
    windows: TopWindows,
    window_name: Seq<char>,
    lines: Seq<ScreenLineView>,
    area: Rect,
    rows: usize,
) -> WidgetView {
    let limit = scroll_limit(rows as int, windows.stats_viewport_height as int);
    WidgetView::Paragraph {
        body: BodyView::Lines(lines),
        title: Some(
            window_name + " - Stats (offset "@ + decimal::decimal(
                windows.stats_scroll_from_bottom as nat,
            ) + "/"@ + decimal::decimal(limit as nat) + ")"@,
        ),
        scroll: scroll_from_top(limit, windows.stats_scroll_from_bottom as int),
        trim: Some(false),
        area,
    }
}

/// The window with the log, once the windows are fitted to its rows.
pub open spec fn log_widget(
    windows: TopWindows,
    line_count: nat,
    lines: Seq<ScreenLineView>,
    area: Rect,
    rows: usize,
) -> WidgetView {
    let limit = scroll_limit(rows as int, windows.log_viewport_height as int);
    WidgetView::Paragraph {
        body: BodyView::Lines(lines),
        title: Some(log_title(line_count, windows.log_scroll_from_bottom as nat, limit as nat)),
        scroll: scroll_from_top(limit, windows.log_scroll_from_bottom as int),
        trim: Some(false),
        area,
    }
}

pub open spec fn log_title(line_count: nat, scroll: nat, limit: nat) -> Seq<char> {
    "Log ("@ + decimal::decimal(line_count) + "/"@ + decimal::decimal(MAX_LOG_LINES as nat)
        + ", offset "@ + decimal::decimal(scroll) + "/"@ + decimal::decimal(limit) + ")"@
}

/// The title of a log window.
pub fn log_title_text(line_count: usize, scroll: usize, limit: usize) -> (s: String)
    ensures
        s@ == log_title(line_count as nat, scroll as nat, limit as nat),
{
    text::join9(
        "Log (",
        decimal::usize_text(line_count).as_str(),
        "/",
        decimal::usize_text(MAX_LOG_LINES).as_str(),
        ", offset ",
        decimal::usize_text(scroll).as_str(),
        "/",
        decimal::usize_text(limit).as_str(),
        ")",
    )
}

/// Fits the stats window to its rows and builds it.
pub fn stats_window(
    windows: &mut TopWindows,
    window_name: &str,
    lines: Vec<ScreenLine>,
    area: Rect,
    rows: usize,
) -> (w: Widget)
    ensures
        *final(windows) == old(windows).stats_fitted(area, rows),
        w@ == stats_widget(*final(windows), window_name@, screen_lines(lines@), area, rows),
{
    windows.fit_stats(area, rows);
    let limit: usize = max_scroll(rows, windows.stats_viewport_height);
    let title = text::join6(
        window_name,
        " - Stats (offset ",
        decimal::usize_text(windows.stats_scroll_from_bottom).as_str(),
        "/",
        decimal::usize_text(limit).as_str(),
        ")",
    );
    let scroll: u16 = #[verifier::truncate] (limit.saturating_sub(
        windows.stats_scroll_from_bottom,
    ) as u16);
    Widget::Paragraph {
        body: Body::Lines(lines),
        title: Some(title),
        scroll,
        trim: Some(false),
        area,
    }
}

/// Fits the log window to its rows and builds it.
pub fn log_window(
    windows: &mut TopWindows,
    line_count: usize,
    lines: Vec<ScreenLine>,
    area: Rect,
    rows: usize,
) -> (w: Widget)
    ensures
        *final(windows) == old(windows).log_fitted(area, rows),
        w@ == log_widget(*final(windows), line_count as nat, screen_lines(lines@), area, rows),
{
    windows.fit_log(area, rows);
    let limit: usize = max_scroll(rows, windows.log_viewport_height);
    let title = log_title_text(line_count, windows.log_scroll_from_bottom, limit);
    let scroll: u16 = #[verifier::truncate] (limit.saturating_sub(
        windows.log_scroll_from_bottom,
    ) as u16);
    Widget::Paragraph {
        body: Body::Lines(lines),
        title: Some(title),
        scroll,
        trim: Some(false),
        area,
    }
}

/// The gauge of one worker.
pub open spec fn worker_widget(name: Seq<char>, gauge: GaugeView, area: Rect) -> WidgetView {
    WidgetView::Gauge {
        label: name + ": "@ + gauge.label,
        progress: gauge.progress,
        colour: Colour::LightBlue,
        title: None,
        area,
    }
}

/// The gauges of all workers, in the order of their names.
pub open spec fn worker_widgets(workers: TextMap<ProgressGaugeState>, areas: Seq<Rect>) -> Seq<
    WidgetView,
> {
    Seq::new(
        workers.keys().len(),
        |i: int| worker_widget(workers.keys()[i], workers.values()[i], areas[i]),
    )
}

/// The gauge of the whole.
pub open spec fn master_widget(gauge: GaugeView, area: Rect) -> WidgetView {
    WidgetView::Gauge {
        label: "Master: "@ + gauge.label,
        progress: gauge.progress,
        colour: Colour::Green,
        title: Some("Master"@),
        area,
    }
}

/// The frame round the gauges of the workers.
pub open spec fn workers_frame(area: Rect) -> WidgetView {
    WidgetView::Frame { heading: "Endpoints"@, area }
}

/// The frame round the workers' gauges, the gauges, and the gauge of the whole.
pub open spec fn gauge_widgets(
    workers: TextMap<ProgressGaugeState>,
    master: GaugeView,
    frame: Rect,
    areas: Seq<Rect>,
    master_area: Rect,
) -> Seq<WidgetView> {
    seq![workers_frame(frame)] + worker_widgets(workers, areas) + seq![
        master_widget(master, master_area),
    ]
}

/// Adds the gauges to the widgets of a screen.
pub fn push_gauges(
    widgets: &mut Vec<Widget>,
    workers: &TextMap<ProgressGaugeState>,
    master: &ProgressGaugeState,
    frame: Rect,
    areas: &Vec<Rect>,
    master_area: Rect,
)
    requires
        workers.wf(),
        areas@.len() == workers.keys().len(),
    ensures
        widget_views(final(widgets)@) == widget_views(old(widgets)@) + gauge_widgets(
            *workers,
            master@,
            frame,
            areas@,
            master_area,
        ),
{
    let ghost before = widget_views(widgets@);
    let ghost expected = worker_widgets(*workers, areas@);
    widgets.push(Widget::Frame { heading: "Endpoints".to_owned(), area: frame });
    let ghost framed = before.push(workers_frame(frame));
    assert(widget_views(widgets@) =~= framed);
    let mut i: usize = 0;
    assert(framed + expected.take(0) =~= framed);
    while i < workers.len()
        invariant
            workers.wf(),
            areas@.len() == workers.keys().len(),
            expected == worker_widgets(*workers, areas@),
            i <= workers.keys().len(),
            widget_views(widgets@) == framed + expected.take(i as int),
        decreases workers.keys().len() - i,
    {
        let name = workers.key_at(i);
        let gauge = workers.value_at(i);
        let ghost so_far = widgets@;
        widgets.push(
            Widget::Gauge {
                label: text::join3(name.as_str(), ": ", gauge.label.as_str()),
                progress: gauge.progress,
                colour: Colour::LightBlue,
                title: None,
                area: areas[i],
            },
        );
        assert(widget_views(widgets@) =~= widget_views(so_far).push(expected[i as int]));
        assert(framed + expected.take(i + 1) =~= (framed + expected.take(i as int)).push(
            expected[i as int],
        ));
        i = i + 1;
    }
    let ghost so_far = widgets@;
    widgets.push(
        Widget::Gauge {
            label: text::join2("Master: ", master.label.as_str()),
            progress: master.progress,
            colour: Colour::Green,
            title: Some("Master".to_owned()),
            area: master_area,
        },
    );
    assert(expected.take(expected.len() as int) =~= expected);
    assert(widget_views(widgets@) =~= widget_views(so_far).push(master_widget(master@, master_area)));
    assert(widget_views(widgets@) =~= before + gauge_widgets(
        *workers,
        master@,
        frame,
        areas@,
        master_area,
    ));
}

/// The number of rows for the frame of the workers' gauges: in sixteen bits, as far as they go.
pub open spec fn worker_rows_fit(worker_count: nat) -> bool {
    worker_count as usize as u16 + 2 <= u16::MAX
}

/// One row for each worker.
pub fn worker_rules(worker_count: usize) -> (rules: Vec<SizeRule>)
    ensures
        rules@ == Seq::new(worker_count as nat, |i: int| SizeRule::Length(1)),
{
    let mut rules: Vec<SizeRule> = Vec::new();
    let mut i: usize = 0;
    while i < worker_count
        invariant
            i <= worker_count,
            rules@ == Seq::new(i as nat, |j: int| SizeRule::Length(1)),
        decreases worker_count - i,
    {
        rules.push(SizeRule::Length(1));
        assert(rules@ =~= Seq::new((i + 1) as nat, |j: int| SizeRule::Length(1)));
        i = i + 1;
    }
    rules
}

// ---------------------------------------------------------------------------
// Laws
// ---------------------------------------------------------------------------

/// A rectangle holds its own cells: those from its left to its right side and from its top to its
/// bottom.
pub proof fn rectangles_hold_their_cells(rect: Rect, x: u16, y: u16)
    requires
        rect.x + rect.width <= u16::MAX,
        rect.y + rect.height <= u16::MAX,
    ensures
        rect.holds(x, y) == (rect.x <= x < rect.x + rect.width && rect.y <= y < rect.y
            + rect.height),
{
}

/// A border takes a row or a column from each side.
pub proof fn borders_take_one_cell_from_each_side(area: Rect)
    requires
        area.width >= 2,
        area.height >= 2,
        area.x + area.width <= u16::MAX,
        area.y + area.height <= u16::MAX,
    ensures
        area.inside_border() == (Rect {
            x: (area.x + 1) as u16,
            y: (area.y + 1) as u16,
            width: (area.width - 2) as u16,
            height: (area.height - 2) as u16,
        }),
{
}

/// A log shows all its lines in order, each with its own text: warnings in yellow, errors in red,
/// and the rest in white. An empty log says so.
pub proof fn logs_show_every_line(lines: Seq<LineView>, i: int)
    ensures
        lines.len() == 0 ==> rendered_log(lines) == seq![
            ScreenLineView { text: "No logs yet"@, colour: None },
        ],
        lines.len() > 0 ==> rendered_log(lines).len() == lines.len(),
        0 <= i < lines.len() ==> {
            let shown = rendered_log(lines)[i];
            &&& shown.text == lines[i].message
            &&& lines[i].severity == Severity::Info ==> shown.colour == Some(Colour::White)
            &&& lines[i].severity == Severity::Verbose ==> shown.colour == Some(Colour::White)
            &&& lines[i].severity == Severity::Warning ==> shown.colour == Some(Colour::Yellow)
            &&& lines[i].severity == Severity::Error ==> shown.colour == Some(Colour::Red)
        },
{
    if lines.len() > 0 {
        assert(lines.subrange(0, lines.len() as int) =~= lines);
    }
}

/// A part of a log shows the lines from its start up to its end.
pub proof fn parts_of_logs_show_their_lines(lines: Seq<LineView>, from: int, to: int, i: int)
    requires
        0 <= from <= to <= lines.len(),
    ensures
        log_lines_between(lines, from, to).len() == to - from,
        0 <= i < to - from ==> log_lines_between(lines, from, to)[i].text == lines[from
            + i].message,
        0 <= i < to - from ==> log_lines_between(lines, from, to)[i] == rendered_log(lines)[from
            + i],
{
    assert(lines.subrange(0, lines.len() as int) =~= lines);
}

/// A window can be scrolled up until it shows its first row, and no further; a window that shows
/// all its rows cannot be scrolled.
pub proof fn windows_scroll_up_to_their_first_row(total: int, viewport: int)
    requires
        total >= 0,
        viewport >= 1,
    ensures
        total >= viewport ==> scroll_limit(total, viewport) == total - viewport,
        total <= viewport ==> scroll_limit(total, viewport) == 0,
        scroll_limit(total, 0) == scroll_limit(total, 1),
{
}

/// A window that is scrolled up by some rows leaves out that many at the end; scrolled too far, it
/// shows the first rows.
pub proof fn scrolled_windows_leave_out_the_last_rows(total: int, viewport: int, scroll: int)
    requires
        viewport >= 1,
        total >= viewport,
        scroll >= 0,
    ensures
        scroll <= total - viewport ==> window_end(total, viewport, scroll) == total - scroll,
        scroll <= total - viewport ==> window_start(total, viewport, scroll) == total - scroll
            - viewport,
        scroll >= total - viewport ==> window_start(total, viewport, scroll) == 0,
        scroll >= total - viewport ==> window_end(total, viewport, scroll) == viewport,
{
}

/// The wheel scrolls the window under the mouse by as many rows as it is asked, and no other
/// window; the log window only where the stats window is not.
pub proof fn the_wheel_scrolls_the_window_under_the_mouse(
    windows: TopWindows,
    x: u16,
    y: u16,
    amount: usize,
)
    requires
        windows.stats_scroll_from_bottom + amount <= usize::MAX,
        windows.log_scroll_from_bottom + amount <= usize::MAX,
    ensures
        ({
            let up = windows.scrolled_up(x, y, amount);
            let down = windows.scrolled_down(x, y, amount);
            &&& windows.stats_area.holds(x, y) ==> {
                &&& up.stats_scroll_from_bottom == windows.stats_scroll_from_bottom + amount
                &&& up.log_scroll_from_bottom == windows.log_scroll_from_bottom
                &&& down.log_scroll_from_bottom == windows.log_scroll_from_bottom
                &&& windows.stats_scroll_from_bottom >= amount ==> down.stats_scroll_from_bottom
                    == windows.stats_scroll_from_bottom - amount
                &&& windows.stats_scroll_from_bottom <= amount ==> down.stats_scroll_from_bottom
                    == 0
            }
            &&& !windows.stats_area.holds(x, y) && windows.log_area.holds(x, y) ==> {
                &&& up.log_scroll_from_bottom == windows.log_scroll_from_bottom + amount
                &&& up.stats_scroll_from_bottom == windows.stats_scroll_from_bottom
                &&& down.stats_scroll_from_bottom == windows.stats_scroll_from_bottom
                &&& windows.log_scroll_from_bottom >= amount ==> down.log_scroll_from_bottom
                    == windows.log_scroll_from_bottom - amount
                &&& windows.log_scroll_from_bottom <= amount ==> down.log_scroll_from_bottom == 0
            }
            &&& !windows.stats_area.holds(x, y) && !windows.log_area.holds(x, y) ==> up == windows
                && down == windows
            &&& up.stats_area == windows.stats_area && up.log_area == windows.log_area
            &&& down.stats_area == windows.stats_area && down.log_area == windows.log_area
            &&& up.stats_viewport_height == windows.stats_viewport_height
            &&& up.log_viewport_height == windows.log_viewport_height
            &&& down.stats_viewport_height == windows.stats_viewport_height
            &&& down.log_viewport_height == windows.log_viewport_height
        }),
{
}

/// A window takes the height inside its border, and gives up only as much of its scroll as goes
/// beyond its rows.
pub proof fn fitting_gives_up_only_what_it_must(windows: TopWindows, area: Rect, rows: usize)
    requires
        area.height >= 3,
    ensures
        ({
            let height = area.height - 2;
            let fitted = windows.stats_fitted(area, rows);
            &&& fitted.stats_viewport_height == height
            &&& windows.stats_scroll_from_bottom + height <= rows ==> fitted.stats_scroll_from_bottom
                == windows.stats_scroll_from_bottom
            &&& windows.stats_scroll_from_bottom + height >= rows && rows >= height
                ==> fitted.stats_scroll_from_bottom == rows - height
            &&& rows <= height ==> fitted.stats_scroll_from_bottom == 0
            &&& fitted.log_scroll_from_bottom == windows.log_scroll_from_bottom
            &&& fitted.log_viewport_height == windows.log_viewport_height
            &&& fitted.stats_area == windows.stats_area
            &&& fitted.log_area == windows.log_area
        }),
        ({
            let height = area.height - 2;
            let fitted = windows.log_fitted(area, rows);
            &&& fitted.log_viewport_height == height
            &&& windows.log_scroll_from_bottom + height <= rows ==> fitted.log_scroll_from_bottom
                == windows.log_scroll_from_bottom
            &&& windows.log_scroll_from_bottom + height >= rows && rows >= height
                ==> fitted.log_scroll_from_bottom == rows - height
            &&& rows <= height ==> fitted.log_scroll_from_bottom == 0
            &&& fitted.stats_scroll_from_bottom == windows.stats_scroll_from_bottom
            &&& fitted.stats_viewport_height == windows.stats_viewport_height
            &&& fitted.stats_area == windows.stats_area
            &&& fitted.log_area == windows.log_area
        }),
{
}

proof fn lemma_kept_positions(
    keys: Seq<Seq<char>>,
    keep: spec_fn(Seq<char>) -> bool,
    p: int,
    q: int,
)
    requires
        0 <= p < q < progress_tui_logger::keys_where(keys, keep).len(),
    ensures
        exists|i: int, j: int|
            0 <= i < j < keys.len() && keys[i] == progress_tui_logger::keys_where(keys, keep)[p]
                && keys[j] == progress_tui_logger::keys_where(keys, keep)[q],
    decreases keys.len(),
{
    let kept = progress_tui_logger::keys_where(keys, keep);
    if keys.len() > 0 {
        let init = keys.drop_last();
        let less = progress_tui_logger::keys_where(init, keep);
        if q < less.len() {
            lemma_kept_positions(init, keep, p, q);
            let (i, j) = choose|i: int, j: int|
                0 <= i < j < init.len() && init[i] == less[p] && init[j] == less[q];
            assert(keys[i] == kept[p] && keys[j] == kept[q]);
        } else {
            progress_tui_logger::lemma_keys_where(init, keep);
            assert(less.contains(less[p]));
            let i = choose|i: int| 0 <= i < init.len() && init[i] == less[p];
            assert(keys[i] == kept[p] && keys[keys.len() - 1] == kept[q]);
        }
    }
}

/// The keys of a list are shown in their fixed order, as far as they have one; the others follow,
/// ascending.
pub proof fn keys_are_shown_in_their_order(
    key_values: TextMap<String>,
    key_order: Seq<Seq<char>>,
    p: int,
    q: int,
)
    requires
        key_values.wf(),
        0 <= p < q < ordered_keys(key_values, key_order).len(),
    ensures
        ({
            let a = ordered_keys(key_values, key_order)[p];
            let b = ordered_keys(key_values, key_order)[q];
            ||| exists|i: int, j: int|
                0 <= i < j < key_order.len() && key_order[i] == a && key_order[j] == b
            ||| key_order.contains(a) && !key_order.contains(b)
            ||| !key_order.contains(a) && !key_order.contains(b) && text::text_before(a, b)
        }),
{
    let known = |k: Seq<char>| key_values@.contains_key(k);
    let unknown = |k: Seq<char>| !key_order.contains(k);
    let keys = key_values.keys();
    let first = progress_tui_logger::keys_where(key_order, known);
    let rest = progress_tui_logger::keys_where(keys, unknown);
    let all = first + rest;
    progress_tui_logger::lemma_keys_where(key_order, known);
    progress_tui_logger::lemma_keys_where(keys, unknown);
    progress_tui_logger::lemma_keys_where_ascend(keys, unknown);
    if q < first.len() {
        lemma_kept_positions(key_order, known, p, q);
        let (i, j) = choose|i: int, j: int|
            0 <= i < j < key_order.len() && key_order[i] == first[p] && key_order[j] == first[q];
        assert(key_order[i] == all[p] && key_order[j] == all[q]);
    } else {
        let b = rest[q - first.len()];
        assert(rest.contains(b));
        assert(all[q] == b);
        if p < first.len() {
            assert(first.contains(first[p]));
            assert(all[p] == first[p]);
        } else {
            let a = rest[p - first.len()];
            assert(rest.contains(a));
            assert(all[p] == a);
        }
    }
}

/// A key is shown with its value behind it, without a colour.
pub proof fn keys_are_shown_with_their_values(
    key_values: TextMap<String>,
    keys: Seq<Seq<char>>,
    i: int,
)
    requires
        0 <= i < keys.len(),
    ensures
        key_value_lines(key_values, keys).len() == keys.len(),
        key_value_lines(key_values, keys)[i].text == keys[i] + ": "@ + key_values@[keys[i]],
        key_value_lines(key_values, keys)[i].colour is None,
{
}

/// A state that says something is shown as it is under its title; a blank one is not shown.
pub proof fn states_are_shown_unless_blank(state: Seq<char>, area: Rect)
    ensures
        text::blank(state) ==> state_widgets(state, area).len() == 0,
        !text::blank(state) ==> {
            &&& state_widgets(state, area).len() == 1
            &&& state_widgets(state, area)[0] == (WidgetView::Paragraph {
                body: BodyView::Text(state),
                title: Some("State"@),
                scroll: 0,
                trim: Some(true),
                area,
            })
        },
{
}

/// The stats window shows all its lines under a title with the name of the window and its scroll.
/// It begins as many rows before the last page as it is scrolled up.
pub proof fn stats_windows_show_their_lines(
    windows: TopWindows,
    window_name: Seq<char>,
    lines: Seq<ScreenLineView>,
    area: Rect,
    rows: usize,
)
    requires
        windows.stats_viewport_height >= 1,
        windows.stats_scroll_from_bottom + windows.stats_viewport_height <= rows,
        rows <= u16::MAX,
    ensures
        ({
            let w = stats_widget(windows, window_name, lines, area, rows);
            let limit = (rows - windows.stats_viewport_height) as nat;
            &&& w is Paragraph
            &&& w->Paragraph_body == BodyView::Lines(lines)
            &&& w->Paragraph_title == Some(
                window_name + " - Stats (offset "@ + decimal::decimal(
                    windows.stats_scroll_from_bottom as nat,
                ) + "/"@ + decimal::decimal(limit) + ")"@,
            )
            &&& w->Paragraph_scroll == rows - windows.stats_viewport_height
                - windows.stats_scroll_from_bottom
            &&& w->Paragraph_area == area
            &&& w->trim == Some(false)
        }),
{
}

/// The log window shows all its lines under a title with the number of lines, out of a hundred,
/// and its scroll. It begins as many rows before the last page as it is scrolled up.
pub proof fn log_windows_show_their_lines(
    windows: TopWindows,
    line_count: nat,
    lines: Seq<ScreenLineView>,
    area: Rect,
    rows: usize,
)
    requires
        windows.log_viewport_height >= 1,
        windows.log_scroll_from_bottom + windows.log_viewport_height <= rows,
        rows <= u16::MAX,
    ensures
        ({
            let w = log_widget(windows, line_count, lines, area, rows);
            let limit = (rows - windows.log_viewport_height) as nat;
            &&& w is Paragraph
            &&& w->Paragraph_body == BodyView::Lines(lines)
            &&& w->Paragraph_title == Some(
                "Log ("@ + decimal::decimal(line_count) + "/"@ + decimal::decimal(100)
                    + ", offset "@ + decimal::decimal(windows.log_scroll_from_bottom as nat) + "/"@
                    + decimal::decimal(limit) + ")"@,
            )
            &&& w->Paragraph_scroll == rows - windows.log_viewport_height
                - windows.log_scroll_from_bottom
            &&& w->Paragraph_area == area
            &&& w->trim == Some(false)
        }),
{
}

/// The gauges stand in a frame: one for each worker, in the order of their names, with the
/// worker's progress and label, and then the one of the whole.
pub proof fn gauges_show_every_worker(
    workers: TextMap<ProgressGaugeState>,
    master: GaugeView,
    frame: Rect,
    areas: Seq<Rect>,
    master_area: Rect,
    i: int,
)
    requires
        workers.wf(),
    ensures
        ({
            let all = gauge_widgets(workers, master, frame, areas, master_area);
            let names = workers.keys();
            &&& all.len() == names.len() + 2
            &&& all[0] == (WidgetView::Frame { heading: "Endpoints"@, area: frame })
            &&& all.last() == (WidgetView::Gauge {
                label: "Master: "@ + master.label,
                progress: master.progress,
                colour: Colour::Green,
                title: Some("Master"@),
                area: master_area,
            })
            &&& 0 <= i < names.len() ==> all[i + 1] == (WidgetView::Gauge {
                label: names[i] + ": "@ + workers@[names[i]].label,
                progress: workers@[names[i]].progress,
                colour: Colour::LightBlue,
                title: None,
                area: areas[i],
            })
        }),
{
    crate::text_map::lemma_map_of(workers.keys(), workers.values());
    let all = gauge_widgets(workers, master, frame, areas, master_area);
    if 0 <= i < workers.keys().len() {
        assert(all[i + 1] == worker_widgets(workers, areas)[i]);
    }
}

/// Both windows begin unscrolled, one row high and without an area.
pub proof fn windows_begin_unscrolled()
    ensures
        TopWindows::initial().stats_scroll_from_bottom == 0,
        TopWindows::initial().log_scroll_from_bottom == 0,
        TopWindows::initial().stats_viewport_height == 1,
        TopWindows::initial().log_viewport_height == 1,
        forall|x: u16, y: u16| !TopWindows::initial().stats_area.holds(x, y),
        forall|x: u16, y: u16| !TopWindows::initial().log_area.holds(x, y),
{
}

/// A rectangle that reaches beyond the largest coordinate ends there; one without cells holds
/// none, and a rectangle too small for a border has no inside.
pub proof fn rectangles_end_at_the_largest_coordinate(rect: Rect, x: u16, y: u16)
    ensures
        rect.x + rect.width > u16::MAX && rect.y + rect.height > u16::MAX ==> rect.holds(x, y)
            == (rect.x <= x < u16::MAX && rect.y <= y < u16::MAX),
        rect.width == 0 || rect.height == 0 ==> !rect.holds(x, y),
        rect.width <= 2 ==> rect.inside_border().width == 0,
        rect.height <= 2 ==> rect.inside_border().height == 0,
        rect.inside_border().holds(x, y) ==> rect.holds(x, y),
{
}

/// Lines take up the rows that they are wrapped to between the two sides of the border; where
/// there is no room between them, they take up none.
pub proof fn lines_are_wrapped_inside_the_border(
    lines: Seq<ScreenLineView>,
    area: Rect,
    trim: bool,
)
    requires
        area.x + area.width <= u16::MAX,
    ensures
        area.width > 2 ==> rows_inside(lines, area, trim) == wrapped_rows(
            lines,
            (area.width - 2) as u16,
            trim,
        ),
        area.width <= 2 ==> rows_inside(lines, area, trim) == 0,
{
}

/// Scrolling up stops at the largest number, and never scrolls down.
pub proof fn scrolling_stops_at_the_largest_number(
    windows: TopWindows,
    x: u16,
    y: u16,
    amount: usize,
)
    ensures
        ({
            let up = windows.scrolled_up(x, y, amount);
            &&& up.stats_scroll_from_bottom >= windows.stats_scroll_from_bottom
            &&& up.log_scroll_from_bottom >= windows.log_scroll_from_bottom
            &&& windows.stats_area.holds(x, y) && windows.stats_scroll_from_bottom + amount
                > usize::MAX ==> up.stats_scroll_from_bottom == usize::MAX
            &&& !windows.stats_area.holds(x, y) && windows.log_area.holds(x, y)
                && windows.log_scroll_from_bottom + amount > usize::MAX
                ==> up.log_scroll_from_bottom == usize::MAX
        }),
{
}

}
