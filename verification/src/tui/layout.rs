//! Where the panes lie, and which one a click hits. Drawing and click
//! hit-testing must agree on the regions.

use vstd::prelude::*;

use crate::seqs::referents;
use crate::tui::app::App;
use crate::tui::state::AppState;
use crate::tui::state::Click;
use crate::tui::state::Pane;
use crate::tui::view::bottom_line;
use crate::tui::view::passives_pane;
use crate::tui::view::results_pane;
use crate::tui::view::shows_pals;
use crate::tui::view::shows_passives;
use crate::tui::view::shows_results;
use crate::tui::view::species_pane;
use crate::tui::view::status_line;
use crate::tui::view::ListPane;
use crate::tui::view::ResultsPane;
use crate::tui::view::TextLine;
use crate::model::PalDb;

verus! {

/// A rectangle of the screen.
#[derive(Clone, Copy, PartialEq, Eq, Structural, Debug)]
pub struct Area {
    pub x: u16,
    pub y: u16,
    pub width: u16,
    pub height: u16,
}

/// The sum of two coordinates, no more than the largest one.
pub open spec fn reach(start: u16, length: u16) -> int {
    if start + length > u16::MAX {
        u16::MAX as int
    } else {
        start + length
    }
}

impl Area {
    /// A point lies in the area.
    pub open spec fn covers(self, column: u16, row: u16) -> bool {
        self.x <= column < reach(self.x, self.width) && self.y <= row < reach(self.y, self.height)
    }

    /// The area without a margin of one all around; nothing when it is
    /// too small to have one.
    pub open spec fn inside(self) -> Area {
        if self.width < 2 || self.height < 2 {
            Area { x: 0, y: 0, width: 0, height: 0 }
        } else {
            Area {
                x: reach(self.x, 1) as u16,
                y: reach(self.y, 1) as u16,
                width: (self.width - 2) as u16,
                height: (self.height - 2) as u16,
            }
        }
    }

    /// Whether a point lies in the area.
    pub fn contains(self, column: u16, row: u16) -> (r: bool)
        ensures
            r == self.covers(column, row),
    {
        self.x <= column && column < far(self.x, self.width) && self.y <= row && row < far(
            self.y,
            self.height,
        )
    }

    /// The area without a margin of one all around.
    pub fn inner(self) -> (r: Area)
        ensures
            r == self.inside(),
    {
        if self.width < 2 || self.height < 2 {
            Area { x: 0, y: 0, width: 0, height: 0 }
        } else {
            Area {
                x: far(self.x, 1),
                y: far(self.y, 1),
                width: self.width - 2,
                height: self.height - 2,
            }
        }
    }
}

fn far(start: u16, length: u16) -> (r: u16)
    ensures
        r == reach(start, length),
{
    if start > u16::MAX - length {
        u16::MAX
    } else {
        start + length
    }
}

// ---------------------------------------------------------------------
// Rows under the pointer
// ---------------------------------------------------------------------
/// How far a list is scrolled that keeps its selection visible.
pub open spec fn list_offset(selected: usize, height: nat) -> int {
    if height == 0 || selected < height {
        0
    } else {
        selected - (height - 1)
    }
}

/// The offset a list settles on when only its selection is known: scroll
/// just far enough to keep the selection visible.
pub fn scroll_offset(selected: usize, height: usize) -> (r: usize)
    ensures
        r == list_offset(selected, height as nat),
{
    if height == 0 || selected < height {
        0
    } else {
        selected - (height - 1)
    }
}

/// The row of a list that a click at some height hits.
pub open spec fn row_hit(top: u16, y: u16, cursor: usize, height: u16, rows: nat) -> Option<usize> {
    if y < top {
        None
    } else {
        let index = list_offset(cursor, height as nat) + (y - top);
        if index < rows {
            Some(index as usize)
        } else {
            None
        }
    }
}

/// The row of a list that a click at some height hits.
pub fn row_index(
    list_top: u16,
    click_y: u16,
    cursor: usize,
    list_height: u16,
    rows_len: usize,
) -> (r: Option<usize>)
    ensures
        r == row_hit(list_top, click_y, cursor, list_height, rows_len as nat),
{
    if click_y < list_top {
        return None;
    }
    let offset: usize = scroll_offset(cursor, list_height as usize);
    let below: usize = (click_y - list_top) as usize;
    if offset >= rows_len || below >= rows_len - offset {
        return None;
    }
    Some(offset + below)
}

/// The row that a click hits in a pane of a filter line and a list.
pub open spec fn filtered_row_hit(
    pane: Area,
    column: u16,
    row: u16,
    cursor: usize,
    rows: nat,
) -> Option<usize> {
    let inner = pane.inside();
    if !inner.covers(column, row) || row == inner.y {
        None
    } else {
        row_hit(
            (inner.y + 1) as u16,
            row,
            cursor,
            (if inner.height == 0 {
                0
            } else {
                inner.height - 1
            }) as u16,
            rows,
        )
    }
}

/// Row index within a filter-plus-list pane (filter line first, list
/// below the borders).
pub fn filterable_row_at(pane: Area, column: u16, row: u16, cursor: usize, rows_len: usize) -> (r:
    Option<usize>)
    ensures
        r == filtered_row_hit(pane, column, row, cursor, rows_len as nat),
{
    let inner = pane.inner();
    if !inner.contains(column, row) || row == inner.y {
        return None;
    }
    let list_height: u16 = if inner.height == 0 {
        0
    } else {
        inner.height - 1
    };
    row_index(inner.y + 1, row, cursor, list_height, rows_len)
}

/// Rows the plans list occupies inside the Results pane (the detail tree
/// renders below).
pub const PLANS_LIST_HEIGHT: u16 = 7;

/// The height of the plans list in an area.
pub open spec fn plans_height(inner: Area) -> u16 {
    if inner.height < PLANS_LIST_HEIGHT {
        inner.height
    } else {
        PLANS_LIST_HEIGHT
    }
}

/// The row that a click hits in the Results pane.
pub open spec fn result_row_hit(
    pane: Area,
    column: u16,
    row: u16,
    cursor: usize,
    rows: nat,
) -> Option<usize> {
    let inner = pane.inside();
    let height = plans_height(inner);
    if inner.covers(column, row) && row < reach(inner.y, height) {
        row_hit(inner.y, row, cursor, height, rows)
    } else {
        None
    }
}

/// The regions that drawing and click hit-testing share.
#[derive(Clone, Copy, PartialEq, Eq, Structural, Debug)]
pub struct PaneAreas {
    pub species: Area,
    pub passives: Area,
    pub results: Area,
    pub status: Area,
    pub help: Area,
}

/// The pane and row that a point of the screen belongs to.
pub open spec fn located(
    s: AppState,
    db: PalDb,
    areas: PaneAreas,
    column: u16,
    row: u16,
) -> Option<Click> {
    if areas.species.covers(column, row) {
        Some(
            Click {
                pane: Pane::Pals,
                row: filtered_row_hit(
                    areas.species,
                    column,
                    row,
                    s.species_cursor,
                    s.pals_shown(db).len(),
                ),
            },
        )
    } else if areas.passives.covers(column, row) {
        Some(
            Click {
                pane: Pane::Passives,
                row: filtered_row_hit(
                    areas.passives,
                    column,
                    row,
                    s.passive_cursor,
                    s.skills_shown(db).len(),
                ),
            },
        )
    } else if areas.results.covers(column, row) {
        Some(
            Click {
                pane: Pane::Results,
                row: if s.viewing_saved {
                    result_row_hit(areas.results, column, row, s.saved_cursor, s.saved.len())
                } else {
                    result_row_hit(areas.results, column, row, s.plan_cursor, s.plans.len())
                },
            },
        )
    } else {
        None
    }
}

fn result_row_at(pane: Area, column: u16, row: u16, cursor: usize, rows_len: usize) -> (r: Option<
    usize,
>)
    ensures
        r == result_row_hit(pane, column, row, cursor, rows_len as nat),
{
    let inner = pane.inner();
    let height: u16 = if inner.height < PLANS_LIST_HEIGHT {
        inner.height
    } else {
        PLANS_LIST_HEIGHT
    };
    if inner.contains(column, row) && row < far(inner.y, height) {
        row_index(inner.y, row, cursor, height, rows_len)
    } else {
        None
    }
}

/// Maps a click position to the pane (and list row) it landed on, in the
/// regions that were drawn.
pub fn locate_in(app: &App, areas: PaneAreas, column: u16, row: u16) -> (r: Option<Click>)
    requires
        app.wf(),
    ensures
        r == located(app@, app.solver.db(), areas, column, row),
{
    if areas.species.contains(column, row) {
        let rows = app.species_rows();
        proof {
            assert(referents(rows@).len() == rows@.len());
        }
        return Some(
            Click {
                pane: Pane::Pals,
                row: filterable_row_at(
                    areas.species,
                    column,
                    row,
                    app.species_cursor,
                    rows.len(),
                ),
            },
        );
    }
    if areas.passives.contains(column, row) {
        let rows = app.passive_rows();
        proof {
            assert(referents(rows@).len() == rows@.len());
        }
        return Some(
            Click {
                pane: Pane::Passives,
                row: filterable_row_at(
                    areas.passives,
                    column,
                    row,
                    app.passive_cursor,
                    rows.len(),
                ),
            },
        );
    }
    if areas.results.contains(column, row) {
        proof {
            assert(app@.saved.len() == app.saved.plans@.len());
            assert(app@.plans.len() == app.plans@.len());
        }
        let hit: Option<usize> = if app.viewing_saved {
            result_row_at(areas.results, column, row, app.saved_cursor, app.saved.plans.len())
        } else {
            result_row_at(areas.results, column, row, app.plan_cursor, app.plans.len())
        };
        return Some(Click { pane: Pane::Results, row: hit });
    }
    None
}

// ---------------------------------------------------------------------
// Splitting the screen
// ---------------------------------------------------------------------
/// Which way an area is split.
#[derive(Clone, Copy, PartialEq, Eq, Structural, Debug)]
pub enum Axis {
    Vertical,
    Horizontal,
}

/// How much of an area a part takes.
#[derive(Clone, Copy, PartialEq, Eq, Structural, Debug)]
pub enum Share {
    Min(u16),
    Length(u16),
    Percentage(u16),
}

/// The area ends within the range of coordinates.
pub open spec fn on_grid(area: Area) -> bool {
    area.x + area.width <= u16::MAX && area.y + area.height <= u16::MAX
}

/// How many percent the first `i` shares take together.
pub open spec fn percent_before(shares: Seq<Share>, i: int) -> int
    decreases i,
{
    if i <= 0 {
        0
    } else {
        percent_before(shares, i - 1) + match shares[i - 1] {
            Share::Percentage(percent) => percent as int,
            _ => 0,
        }
    }
}

/// Where `percent` of a stretch ends, to the nearest cell.
pub open spec fn edge(start: u16, size: u16, percent: int) -> int {
    (100 * start + size * percent + 50) / 100
}

/// Every share is a percentage, and together they take everything.
pub open spec fn all_percent(shares: Seq<Share>) -> bool {
    percent_before(shares, shares.len() as int) == 100 && forall|i: int|
        0 <= i < shares.len() ==> (#[trigger] shares[i]) is Percentage
}

/// Columns whose percentages take the whole width meet where those
/// percentages end.
pub open spec fn in_columns(area: Area, shares: Seq<Share>, parts: Seq<Area>) -> bool {
    forall|i: int|
        0 <= i < parts.len() ==> {
            let part = #[trigger] parts[i];
            part.x == edge(area.x, area.width, percent_before(shares, i)) && part.x + part.width
                == edge(area.x, area.width, percent_before(shares, i + 1))
        }
}

/// How high a body above two lines becomes: it takes what the lines
/// leave, and where not all of them have room, only its least height.
pub open spec fn body_height(height: u16, least: u16, upper: u16, lower: u16) -> int {
    if least + upper + lower <= height {
        height - upper - lower
    } else if least <= height {
        least as int
    } else {
        height as int
    }
}

/// A body comes first, and two lines of fixed height stand below it
/// where they have room.
pub open spec fn in_rows(area: Area, shares: Seq<Share>, parts: Seq<Area>) -> bool {
    match (shares[0], shares[1], shares[2]) {
        (Share::Min(least), Share::Length(upper), Share::Length(lower)) => least <= i16::MAX ==> {
            &&& parts[0].y == area.y
            &&& parts[0].height == body_height(area.height, least, upper, lower)
            &&& least + upper + lower <= area.height ==> {
                &&& parts[1].y == area.y + area.height - upper - lower
                &&& parts[1].height == upper
                &&& parts[2].y == area.y + area.height - lower
                &&& parts[2].height == lower
            }
        },
        _ => true,
    }
}

/// A part lies inside an area.
pub open spec fn inside(part: Area, area: Area) -> bool {
    &&& area.x <= part.x && part.x + part.width <= area.x + area.width
    &&& area.y <= part.y && part.y + part.height <= area.y + area.height
}

/// What is known of how an area is split: every part lies inside it and
/// reaches across it, and where the shares can all be granted, the parts
/// lie side by side.
pub open spec fn divides(area: Area, axis: Axis, shares: Seq<Share>, parts: Seq<Area>) -> bool {
    &&& parts.len() == shares.len()
    &&& on_grid(area) ==> forall|i: int|
        0 <= i < parts.len() ==> inside(#[trigger] parts[i], area)
    &&& on_grid(area) && axis is Horizontal ==> {
        &&& forall|i: int|
            0 <= i < parts.len() ==> (#[trigger] parts[i]).y == area.y && parts[i].height
                == area.height
        &&& all_percent(shares) ==> in_columns(area, shares, parts)
    }
    &&& on_grid(area) && axis is Vertical ==> {
        &&& forall|i: int|
            0 <= i < parts.len() ==> (#[trigger] parts[i]).x == area.x && parts[i].width
                == area.width
        &&& shares.len() == 3 ==> in_rows(area, shares, parts)
    }
}

/// `ratatui::layout::Layout::split`: one part for each share, each inside
/// the area and as wide (of rows) or as high (of columns) as it.
/// Percentages of a hundred end at the nearest cells. A `Min` above two
/// `Length`s takes what these leave; where not all of them fit, `Min`
/// has priority over `Length`, and how the lengths share what is left is
/// the solver's choice, of which nothing is said.
#[verifier::external_body]
fn split(area: Area, axis: Axis, shares: &Vec<Share>) -> (r: Vec<Area>)
    ensures
        divides(area, axis, shares@, r@),
{
    let direction = match axis {
        Axis::Vertical => ratatui::layout::Direction::Vertical,
        Axis::Horizontal => ratatui::layout::Direction::Horizontal,
    };
    let constraints = shares.iter().map(|share| match share {
        Share::Min(n) => ratatui::layout::Constraint::Min(*n),
        Share::Length(n) => ratatui::layout::Constraint::Length(*n),
        Share::Percentage(n) => ratatui::layout::Constraint::Percentage(*n),
    });
    let rect = ratatui::layout::Rect::new(area.x, area.y, area.width, area.height);
    let parts = ratatui::layout::Layout::new(direction, constraints).split(rect);
    parts.iter().map(|p| Area { x: p.x, y: p.y, width: p.width, height: p.height }).collect()
}

/// The regions stand in the screen: three panes side by side at 24, 26
/// and 50 percent, all as high, and the status and help lines, which on
/// seven lines or more stand below the panes, one row each.
pub open spec fn framed(areas: PaneAreas, area: Area) -> bool {
    &&& areas.species.x == area.x
    &&& areas.species.x + areas.species.width == edge(area.x, area.width, 24)
    &&& areas.passives.x == edge(area.x, area.width, 24)
    &&& areas.passives.x + areas.passives.width == edge(area.x, area.width, 50)
    &&& areas.results.x == edge(area.x, area.width, 50)
    &&& areas.results.x + areas.results.width == area.x + area.width
    &&& areas.species.y == area.y && areas.species.height == body_height(area.height, 5, 1, 1)
    &&& areas.passives.y == areas.species.y && areas.passives.height == areas.species.height
    &&& areas.results.y == areas.species.y && areas.results.height == areas.species.height
    &&& areas.status.x == area.x && areas.status.width == area.width
    &&& areas.help.x == area.x && areas.help.width == area.width
    &&& inside(areas.species, area) && inside(areas.passives, area) && inside(areas.results, area)
    &&& inside(areas.status, area) && inside(areas.help, area)
    &&& area.height >= 7 ==> {
        &&& areas.status.y == area.y + area.height - 2 && areas.status.height == 1
        &&& areas.help.y == area.y + area.height - 1 && areas.help.height == 1
    }
}

/// The regions that drawing and clicking agree on.
fn pane_areas(area: Area) -> (r: PaneAreas)
    ensures
        on_grid(area) ==> framed(r, area),
{
    let mut rows: Vec<Share> = Vec::new();
    rows.push(Share::Min(5));
    rows.push(Share::Length(1));
    rows.push(Share::Length(1));
    let stacked = split(area, Axis::Vertical, &rows);
    let mut columns: Vec<Share> = Vec::new();
    columns.push(Share::Percentage(24));
    columns.push(Share::Percentage(26));
    columns.push(Share::Percentage(50));
    let beside = split(stacked[0], Axis::Horizontal, &columns);
    proof {
        reveal_with_fuel(percent_before, 4);
        assert(percent_before(columns@, 1) == 24);
        assert(percent_before(columns@, 2) == 50);
        assert(percent_before(columns@, 3) == 100);
        if on_grid(area) {
            assert(inside(stacked@[0], area));
            assert(on_grid(stacked@[0]));
            assert(inside(beside@[0], stacked@[0]));
            assert(inside(beside@[1], stacked@[0]));
            assert(inside(beside@[2], stacked@[0]));
            assert(inside(stacked@[1], area) && inside(stacked@[2], area));
        }
    }
    PaneAreas {
        species: beside[0],
        passives: beside[1],
        results: beside[2],
        status: stacked[1],
        help: stacked[2],
    }
}

/// A click says where a point lies in the regions of the screen. The
/// panes of a screen lie in one way only.
pub open spec fn located_on(
    s: AppState,
    db: PalDb,
    area: Area,
    column: u16,
    row: u16,
    click: Option<Click>,
) -> bool {
    exists|areas: PaneAreas|
        (on_grid(area) ==> framed(areas, area)) && click == #[trigger] located(
            s,
            db,
            areas,
            column,
            row,
        )
}

/// Maps a click position to the pane (and list row) it landed on, in the
/// regions that the screen splits into.
pub fn locate_click(app: &App, area: Area, column: u16, row: u16) -> (r: Option<Click>)
    requires
        app.wf(),
    ensures
        located_on(app@, app.solver.db(), area, column, row, r),
{
    locate_in(app, pane_areas(area), column, row)
}

/// Everything the screen shows below an open document.
#[derive(Debug)]
pub struct Screen {
    pub areas: PaneAreas,
    pub species: ListPane,
    pub passives: ListPane,
    pub results: ResultsPane,
    pub status: TextLine,
}

/// What the screen shows, and where.
pub fn screen(app: &App, area: Area) -> (r: Screen)
    requires
        app.wf(),
    ensures
        shows_pals(r.species, app@, app.solver.db()),
        shows_passives(r.passives, app@, app.solver.db()),
        shows_results(r.results, app@, app.solver.db()),
        r.status@ == bottom_line(app@),
        on_grid(area) ==> framed(r.areas, area),
{
    Screen {
        areas: pane_areas(area),
        species: species_pane(app),
        passives: passives_pane(app),
        results: results_pane(app),
        status: status_line(app),
    }
}

/// The panes of a screen lie in one way only, so a click has one reading;
/// on seven lines or more so do the lines below them.
pub proof fn law_screens_split_one_way(
    a: PaneAreas,
    b: PaneAreas,
    area: Area,
    s: AppState,
    db: PalDb,
    column: u16,
    row: u16,
)
    requires
        framed(a, area),
        framed(b, area),
    ensures
        located(s, db, a, column, row) == located(s, db, b, column, row),
        area.height >= 7 ==> a == b,
{
    assert(a.species == b.species && a.passives == b.passives && a.results == b.results);
}

/// Whatever the height of the screen, a click on a pane is credited to
/// the pane whose columns it lies in.
pub proof fn law_clicks_go_to_their_column(
    s: AppState,
    db: PalDb,
    areas: PaneAreas,
    area: Area,
    column: u16,
    row: u16,
)
    requires
        framed(areas, area),
    ensures
        located(s, db, areas, column, row) matches Some(click) ==> click.pane == (if column < edge(
            area.x,
            area.width,
            24,
        ) {
            Pane::Pals
        } else if column < edge(area.x, area.width, 50) {
            Pane::Passives
        } else {
            Pane::Results
        }),
{
}

/// A selected row is always among the rows that a list of its height
/// shows.
pub proof fn law_selection_is_visible(selected: usize, height: nat)
    requires
        height > 0,
    ensures
        list_offset(selected, height) <= selected < list_offset(selected, height) + height,
{
}

/// A click on the row where an entry is drawn hits that entry.
pub proof fn law_click_hits_the_drawn_row(
    top: u16,
    cursor: usize,
    height: u16,
    rows: nat,
    entry: usize,
)
    requires
        entry < rows,
        list_offset(cursor, height as nat) <= entry < list_offset(cursor, height as nat) + height,
        top + (entry - list_offset(cursor, height as nat)) <= u16::MAX,
    ensures
        row_hit(
            top,
            (top + (entry - list_offset(cursor, height as nat))) as u16,
            cursor,
            height,
            rows,
        ) == Some(entry),
{
}

} // verus!
