//! The layout that the screens of the reader and the client share: the state, the keys and values
//! and the log at the top, the gauges below, and at the bottom what each screen adds.

use crate::log_lines::{LineView, LogLines};
use crate::progress_tui_protocol::ProgressStats;
use crate::screen;
use crate::screen::{
    Direction, Rect, ScreenLine, SizeRule, TopWindows, Widget, WidgetView, MAX_SCREEN_WIDTH,
};
use crate::text;
use vstd::prelude::*;

verus! {

/// The keys that are shown before all others.
pub open spec fn key_order() -> Seq<Seq<char>> {
    seq!["status"@]
}

/// The keys that are shown before all others.
pub fn key_order_texts() -> (r: Vec<String>)
    ensures
        text::texts(r@) == key_order(),
{
    let mut r: Vec<String> = Vec::new();
    r.push("status".to_owned());
    assert(text::texts(r@) =~= key_order());
    r
}

/// The areas of a screen.
#[derive(Debug)]
pub struct ScreenAreas {
    /// The top, the gauges of the workers, the gauge of the whole, and what each screen adds.
    pub main: Vec<Rect>,
    /// The left and the right half of the top.
    pub top: Vec<Rect>,
    /// The state and the keys and values, in the left half of the top.
    pub left: Vec<Rect>,
    /// One row for each worker.
    pub workers: Vec<Rect>,
}

/// What is asked of the sizes of the main areas.
pub open spec fn main_rules(worker_count: nat, bottom: Seq<SizeRule>) -> Seq<SizeRule> {
    seq![
        SizeRule::Min(6),
        SizeRule::Length((worker_count as usize as u16 + 2) as u16),
        SizeRule::Length(3),
    ] + bottom
}

/// What is asked of the two halves of the top.
pub open spec fn half_rules() -> Seq<SizeRule> {
    seq![SizeRule::Percentage(50), SizeRule::Percentage(50)]
}

/// What is asked of the sizes of the state and of the keys and values.
pub open spec fn left_rules(state_has_text: bool) -> Seq<SizeRule> {
    seq![
        SizeRule::Length(
            if state_has_text {
                3
            } else {
                0
            },
        ),
        SizeRule::Min(3),
    ]
}

/// One row for each worker.
pub open spec fn worker_row_rules(worker_count: nat) -> Seq<SizeRule> {
    Seq::new(worker_count, |i: int| SizeRule::Length(1))
}

/// The parts are ones that dividing an area can give.
pub open spec fn split_into(
    area: Rect,
    direction: Direction,
    rules: Seq<SizeRule>,
    parts: Seq<Rect>,
) -> bool {
    &&& screen::is_split(area, direction, rules, parts)
    &&& screen::divides(parts, area, direction, rules.len())
}

impl ScreenAreas {
    /// The areas are ones that dividing a screen can give.
    pub open spec fn of(
        self,
        area: Rect,
        bottom: Seq<SizeRule>,
        state_has_text: bool,
        worker_count: nat,
    ) -> bool {
        &&& split_into(
            area,
            Direction::Vertical,
            main_rules(worker_count, bottom),
            self.main@,
        )
        &&& split_into(self.main@[0], Direction::Horizontal, half_rules(), self.top@)
        &&& split_into(
            self.top@[0],
            Direction::Vertical,
            left_rules(state_has_text),
            self.left@,
        )
        &&& split_into(
            self.main@[1].inside_border(),
            Direction::Vertical,
            worker_row_rules(worker_count),
            self.workers@,
        )
    }

    pub open spec fn state_area(self) -> Rect {
        self.left@[0]
    }

    pub open spec fn stats_area(self) -> Rect {
        self.left@[1]
    }

    pub open spec fn log_area(self) -> Rect {
        self.top@[1]
    }
}

/// Divides a screen.
pub fn split_screen(
    area: Rect,
    bottom: &Vec<SizeRule>,
    state_has_text: bool,
    worker_count: usize,
) -> (r: ScreenAreas)
    requires
        screen::worker_rows_fit(worker_count as nat),
    ensures
        r.of(area, bottom@, state_has_text, worker_count as nat),
{
    let mut rules: Vec<SizeRule> = Vec::new();
    rules.push(SizeRule::Min(6));
    let worker_rows: u16 = #[verifier::truncate] (worker_count as u16);
    rules.push(SizeRule::Length(worker_rows + 2));
    rules.push(SizeRule::Length(3));
    let mut i: usize = 0;
    assert(rules@ =~= main_rules(worker_count as nat, bottom@.take(0)));
    while i < bottom.len()
        invariant
            i <= bottom@.len(),
            rules@ == main_rules(worker_count as nat, bottom@.take(i as int)),
        decreases bottom@.len() - i,
    {
        rules.push(bottom[i]);
        assert(rules@ =~= main_rules(worker_count as nat, bottom@.take(i + 1)));
        i = i + 1;
    }
    assert(bottom@.take(bottom@.len() as int) =~= bottom@);
    assert(rules@ == main_rules(worker_count as nat, bottom@));
    let main = screen::split_area(area, Direction::Vertical, &rules);

    let mut halves: Vec<SizeRule> = Vec::new();
    halves.push(SizeRule::Percentage(50));
    halves.push(SizeRule::Percentage(50));
    assert(halves@ =~= half_rules());
    let top = screen::split_area(main[0], Direction::Horizontal, &halves);

    let mut sides: Vec<SizeRule> = Vec::new();
    sides.push(
        SizeRule::Length(
            if state_has_text {
                3
            } else {
                0
            },
        ),
    );
    sides.push(SizeRule::Min(3));
    assert(sides@ =~= left_rules(state_has_text));
    let left = screen::split_area(top[0], Direction::Vertical, &sides);

    let worker_rules = screen::worker_rules(worker_count);
    let workers = screen::split_area(
        screen::block_inner(main[1]),
        Direction::Vertical,
        &worker_rules,
    );
    ScreenAreas { main, top, left, workers }
}

/// The windows at the top after they were fitted to their areas and rows.
pub open spec fn top_fitted(
    windows: TopWindows,
    areas: ScreenAreas,
    stats_rows: usize,
    log_rows: usize,
) -> TopWindows {
    (TopWindows { stats_area: areas.stats_area(), log_area: areas.log_area(), ..windows }
        ).stats_fitted(areas.stats_area(), stats_rows).log_fitted(areas.log_area(), log_rows)
}

/// The lines with the keys and values of a display.
pub open spec fn stats_lines(stats: ProgressStats) -> Seq<screen::ScreenLineView> {
    screen::key_value_lines(stats.key_values, screen::ordered_keys(stats.key_values, key_order()))
}

/// The widgets of the upper part of a screen: the state, the keys and values, the log and the
/// gauges.
pub open spec fn upper_widgets(
    windows: TopWindows,
    stats: ProgressStats,
    lines: Seq<LineView>,
    areas: ScreenAreas,
    stats_rows: usize,
    log_rows: usize,
) -> Seq<WidgetView> {
    screen::state_widgets(stats@.state, areas.state_area()) + seq![
        screen::stats_widget(
            windows,
            stats@.window_name,
            stats_lines(stats),
            areas.stats_area(),
            stats_rows,
        ),
        screen::log_widget(
            windows,
            lines.len(),
            screen::rendered_log(lines),
            areas.log_area(),
            log_rows,
        ),
    ] + screen::gauge_widgets(
        stats.worker_progress,
        stats@.master_progress,
        areas.main@[1],
        areas.workers@,
        areas.main@[2],
    )
}

/// Fits the windows at the top to their areas and rows, and builds the upper part of a screen.
pub fn compose_upper(
    windows: &mut TopWindows,
    stats: &ProgressStats,
    lines: &LogLines,
    areas: &ScreenAreas,
    stats_rows: usize,
    log_rows: usize,
) -> (widgets: Vec<Widget>)
    requires
        stats.wf(),
        areas.main@.len() >= 3,
        areas.top@.len() == 2,
        areas.left@.len() == 2,
        areas.workers@.len() == stats.worker_progress.keys().len(),
    ensures
        *final(windows) == top_fitted(*old(windows), *areas, stats_rows, log_rows),
        widget_views_are(
            widgets@,
            upper_widgets(*final(windows), *stats, lines@, *areas, stats_rows, log_rows),
        ),
{
    windows.set_top_window_areas(areas.left[1], areas.top[1]);
    let mut widgets: Vec<Widget> = Vec::new();
    let ghost none = screen::widget_views(widgets@);
    assert(none =~= Seq::<WidgetView>::empty());
    if let Some(window) = state_window_of(stats, areas) {
        widgets.push(window);
    }
    let ghost first = screen::state_widgets(stats@.state, areas.state_area());
    assert(screen::widget_views(widgets@) =~= first);
    let lines_shown = screen::ordered_key_value_lines(&stats.key_values, &key_order_texts());
    let stats_window = screen::stats_window(
        windows,
        stats.window_name.as_str(),
        lines_shown,
        areas.left[1],
        stats_rows,
    );
    let ghost second = stats_window@;
    widgets.push(stats_window);
    let log_window = screen::log_window(
        windows,
        lines.len(),
        screen::rendered_log_lines(lines),
        areas.top[1],
        log_rows,
    );
    let ghost third = log_window@;
    widgets.push(log_window);
    assert(screen::widget_views(widgets@) =~= first + seq![second, third]);
    proof {
        assert(second == screen::stats_widget(
            *windows,
            stats@.window_name,
            stats_lines(*stats),
            areas.stats_area(),
            stats_rows,
        ));
    }
    screen::push_gauges(
        &mut widgets,
        &stats.worker_progress,
        &stats.master_progress,
        areas.main[1],
        &areas.workers,
        areas.main[2],
    );
    widgets
}

/// A list of widgets has the given contents.
pub open spec fn widget_views_are(widgets: Seq<Widget>, views: Seq<WidgetView>) -> bool {
    screen::widget_views(widgets) == views
}

fn state_window_of(stats: &ProgressStats, areas: &ScreenAreas) -> (r: Option<Widget>)
    requires
        areas.left@.len() == 2,
    ensures
        match r {
            Some(w) => screen::state_widgets(stats@.state, areas.state_area()) == seq![w@],
            None => screen::state_widgets(stats@.state, areas.state_area())
                == Seq::<WidgetView>::empty(),
        },
{
    screen::state_window(stats.state.as_str(), areas.left[0])
}

/// How many rows the keys and values of a display take up.
pub fn stats_row_count(stats: &ProgressStats, areas: &ScreenAreas) -> (r: usize)
    requires
        stats.wf(),
        areas.left@.len() == 2,
        areas.stats_area().width <= MAX_SCREEN_WIDTH,
    ensures
        r == screen::rows_inside(stats_lines(*stats), areas.stats_area(), false),
{
    let lines: Vec<ScreenLine> = screen::ordered_key_value_lines(
        &stats.key_values,
        &key_order_texts(),
    );
    screen::wrapped_lines_height(&lines, areas.left[1], false)
}

/// How many rows the log of a display takes up.
pub fn log_row_count(lines: &LogLines, areas: &ScreenAreas) -> (r: usize)
    requires
        areas.top@.len() == 2,
        areas.log_area().width <= MAX_SCREEN_WIDTH,
    ensures
        r == screen::rows_inside(screen::rendered_log(lines@), areas.log_area(), false),
{
    screen::wrapped_lines_height(&screen::rendered_log_lines(lines), areas.top[1], false)
}

// ---------------------------------------------------------------------------
// Laws
// ---------------------------------------------------------------------------

/// Every worker has a row of its own, in a frame with a border; the whole has three rows; the top
/// takes the rest, at least six rows; and what a screen adds comes last.
pub proof fn every_worker_has_a_row(worker_count: nat, bottom: Seq<SizeRule>, i: int)
    requires
        worker_count <= 65_533,
    ensures
        main_rules(worker_count, bottom).len() == 3 + bottom.len(),
        main_rules(worker_count, bottom)[0] == SizeRule::Min(6),
        main_rules(worker_count, bottom)[1] is Length,
        main_rules(worker_count, bottom)[1]->Length_0 == worker_row_rules(worker_count).len() + 2,
        main_rules(worker_count, bottom)[2] == SizeRule::Length(3),
        0 <= i < bottom.len() ==> main_rules(worker_count, bottom)[i + 3] == bottom[i],
        worker_row_rules(worker_count).len() == worker_count,
        0 <= i < worker_count ==> worker_row_rules(worker_count)[i] == SizeRule::Length(1),
{
}

/// The top is halved. A state that says something has three rows of the left half; a blank one has
/// none.
pub proof fn the_top_is_halved()
    ensures
        half_rules() == seq![SizeRule::Percentage(50), SizeRule::Percentage(50)],
        left_rules(true) == seq![SizeRule::Length(3), SizeRule::Min(3)],
        left_rules(false) == seq![SizeRule::Length(0), SizeRule::Min(3)],
{
}

/// The status is shown before all other keys.
pub proof fn the_status_comes_first(stats: ProgressStats)
    requires
        stats.wf(),
        stats.key_values@.contains_key("status"@),
    ensures
        stats_lines(stats).len() > 0,
        stats_lines(stats)[0].text == "status"@ + ": "@ + stats.key_values@["status"@],
{
    let known = |k: Seq<char>| stats.key_values@.contains_key(k);
    assert(key_order().drop_last() =~= Seq::<Seq<char>>::empty());
    assert(crate::progress_tui_logger::keys_where(key_order(), known) =~= seq!["status"@]) by {
        reveal_with_fuel(crate::progress_tui_logger::keys_where, 2);
    }
}

/// Every key is shown with its value, and nothing else.
pub proof fn all_stats_are_shown(stats: ProgressStats, key: Seq<char>)
    requires
        stats.wf(),
    ensures
        stats.key_values@.contains_key(key) ==> exists|i: int|
            0 <= i < stats_lines(stats).len() && (#[trigger] stats_lines(stats)[i]).text == key
                + ": "@ + stats.key_values@[key],
        forall|i: int|
            0 <= i < stats_lines(stats).len() ==> exists|k: Seq<char>| #[trigger]
                stats.key_values@.contains_key(k) && (#[trigger] stats_lines(stats)[i]).text == k
                    + ": "@ + stats.key_values@[k],
{
    let keys = screen::ordered_keys(stats.key_values, key_order());
    screen::every_key_is_shown(stats.key_values, key_order(), key);
    if stats.key_values@.contains_key(key) {
        let i = choose|i: int| 0 <= i < keys.len() && keys[i] == key;
        assert(stats_lines(stats)[i].text == key + ": "@ + stats.key_values@[key]);
    }
    assert forall|i: int| 0 <= i < stats_lines(stats).len() implies exists|k: Seq<char>| #[trigger]
        stats.key_values@.contains_key(k) && (#[trigger] stats_lines(stats)[i]).text == k + ": "@
            + stats.key_values@[k] by {
        screen::every_key_is_shown(stats.key_values, key_order(), keys[i]);
        assert(keys.contains(keys[i]));
        assert(stats.key_values@.contains_key(keys[i]));
    }
}

/// The windows at the top stand where they are drawn, and keep their scroll as far as their rows
/// allow.
pub proof fn windows_stand_where_they_are_drawn(
    windows: TopWindows,
    areas: ScreenAreas,
    stats_rows: usize,
    log_rows: usize,
)
    requires
        areas.left@.len() == 2,
        areas.top@.len() == 2,
        areas.left@[1].height >= 3,
        areas.top@[1].height >= 3,
    ensures
        ({
            let after = top_fitted(windows, areas, stats_rows, log_rows);
            let stats_height = areas.left@[1].height - 2;
            let log_height = areas.top@[1].height - 2;
            &&& after.stats_area == areas.left@[1]
            &&& after.log_area == areas.top@[1]
            &&& after.stats_viewport_height == stats_height
            &&& after.log_viewport_height == log_height
            &&& windows.stats_scroll_from_bottom + stats_height <= stats_rows
                ==> after.stats_scroll_from_bottom == windows.stats_scroll_from_bottom
            &&& windows.log_scroll_from_bottom + log_height <= log_rows
                ==> after.log_scroll_from_bottom == windows.log_scroll_from_bottom
            &&& windows.stats_scroll_from_bottom + stats_height > stats_rows
                ==> after.stats_scroll_from_bottom == (if stats_rows >= stats_height {
                stats_rows - stats_height
            } else {
                0
            })
            &&& windows.log_scroll_from_bottom + log_height > log_rows
                ==> after.log_scroll_from_bottom == (if log_rows >= log_height {
                log_rows - log_height
            } else {
                0
            })
        }),
{
}

/// A screen shows its state first, unless that is blank, then its keys and values, its log and its
/// gauges, each in its own area.
pub proof fn screens_show_all_their_parts(
    windows: TopWindows,
    stats: ProgressStats,
    lines: Seq<LineView>,
    areas: ScreenAreas,
    stats_rows: usize,
    log_rows: usize,
    i: int,
)
    requires
        stats.wf(),
    ensures
        ({
            let all = upper_widgets(windows, stats, lines, areas, stats_rows, log_rows);
            let names = stats.worker_progress.keys();
            let k: int = if text::blank(stats@.state) {
                0
            } else {
                1
            };
            &&& all.len() == k + 4 + names.len()
            &&& k == 1 ==> all[0] is Paragraph && all[0]->Paragraph_body
                == screen::BodyView::Text(stats@.state) && all[0]->Paragraph_area
                == areas.left@[0] && all[0]->Paragraph_title == Some("State"@)
            &&& all[k] is Paragraph
            &&& all[k]->Paragraph_body == screen::BodyView::Lines(stats_lines(stats))
            &&& all[k]->Paragraph_area == areas.left@[1]
            &&& all[k + 1] is Paragraph
            &&& all[k + 1]->Paragraph_body == screen::BodyView::Lines(screen::rendered_log(lines))
            &&& all[k + 1]->Paragraph_area == areas.top@[1]
            &&& all[k + 2] == (WidgetView::Frame { heading: "Endpoints"@, area: areas.main@[1] })
            &&& 0 <= i < names.len() ==> all[k + 3 + i] == (WidgetView::Gauge {
                label: names[i] + ": "@ + stats.worker_progress@[names[i]].label,
                progress: stats.worker_progress@[names[i]].progress,
                colour: screen::Colour::LightBlue,
                title: None,
                area: areas.workers@[i],
            })
            &&& all.last() == (WidgetView::Gauge {
                label: "Master: "@ + stats@.master_progress.label,
                progress: stats@.master_progress.progress,
                colour: screen::Colour::Green,
                title: Some("Master"@),
                area: areas.main@[2],
            })
        }),
{
    screen::states_are_shown_unless_blank(stats@.state, areas.state_area());
    screen::gauges_show_every_worker(
        stats.worker_progress,
        stats@.master_progress,
        areas.main@[1],
        areas.workers@,
        areas.main@[2],
        i,
    );
    let gauges = screen::gauge_widgets(
        stats.worker_progress,
        stats@.master_progress,
        areas.main@[1],
        areas.workers@,
        areas.main@[2],
    );
    let all = upper_widgets(windows, stats, lines, areas, stats_rows, log_rows);
    let k: int = if text::blank(stats@.state) {
        0
    } else {
        1
    };
    assert(all[k + 2] == gauges[0]);
    assert(all.last() == gauges.last());
    if 0 <= i < stats.worker_progress.keys().len() {
        assert(all[k + 3 + i] == gauges[i + 1]);
    }
}

}
