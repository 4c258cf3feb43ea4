//! The areas of the interactive view, as `ratatui`'s layout solver splits
//! the screen, and what holds of them whatever the solver picks.
use ratatui::layout as rl;
use vstd::prelude::*;

verus! {

/// A rectangle of terminal cells.
#[derive(Debug, Clone, Copy, PartialEq, Eq, Structural)]
pub struct Rect {
    pub x: u16,
    pub y: u16,
    pub width: u16,
    pub height: u16,
}

/// The direction an area is split in.
#[derive(Debug, Clone, Copy, PartialEq, Eq, Structural)]
pub enum Direction {
    Horizontal,
    Vertical,
}

/// What one piece of a split asks for.
#[derive(Debug, Clone, Copy, PartialEq, Eq, Structural)]
pub enum Constraint {
    /// Exactly this many cells.
    Length(u16),
    /// At least this many cells.
    Min(u16),
    /// This share of the area, in percent.
    Percentage(u16),
}

/// `p` lies in `area` as a piece of a split along `direction`: it spans
/// the whole of `area` across the direction and lies within it along the
/// direction.
pub open spec fn piece_of(p: Rect, area: Rect, direction: Direction) -> bool {
    match direction {
        Direction::Vertical => {
            &&& p.x == area.x
            &&& p.width == area.width
            &&& area.y <= p.y
            &&& p.y + p.height <= area.y + area.height
        },
        Direction::Horizontal => {
            &&& p.y == area.y
            &&& p.height == area.height
            &&& area.x <= p.x
            &&& p.x + p.width <= area.x + area.width
        },
    }
}

/// Where `area` starts along `direction`.
pub open spec fn span_start(area: Rect, direction: Direction) -> int {
    match direction {
        Direction::Vertical => area.y as int,
        Direction::Horizontal => area.x as int,
    }
}

/// How many cells `area` spans along `direction`.
pub open spec fn span_len(area: Rect, direction: Direction) -> int {
    match direction {
        Direction::Vertical => area.height as int,
        Direction::Horizontal => area.width as int,
    }
}

/// The piece of `area` along `direction` that starts at `start` and spans
/// `len` cells; across the direction it spans all of `area`.
pub open spec fn piece_at(area: Rect, direction: Direction, start: int, len: int) -> Rect {
    match direction {
        Direction::Vertical => Rect { x: area.x, y: start as u16, width: area.width, height: len as u16 },
        Direction::Horizontal => Rect { x: start as u16, y: area.y, width: len as u16, height: area.height },
    }
}

/// The area ends inside the range of cell positions and spans at most
/// 10000 cells along `direction`, so the solver's arithmetic (in hundredths
/// of a cell) is exact enough to round every boundary to the nearest cell.
pub open spec fn measurable(area: Rect, direction: Direction) -> bool {
    &&& span_start(area, direction) + span_len(area, direction) <= 65535
    &&& span_len(area, direction) <= 10000
}

/// `pct` percent of `len` cells, rounded to the nearest cell, halves up.
pub open spec fn cut(len: int, pct: int) -> int {
    (len * pct + 50) / 100
}

/// The percentage that a constraint asks for, 0 for other constraints.
pub open spec fn percent_of(c: Constraint) -> int {
    match c {
        Constraint::Percentage(p) => p as int,
        _ => 0,
    }
}

/// Every constraint asks for a percentage.
pub open spec fn all_percentages(cs: Seq<Constraint>) -> bool {
    forall|i: int| 0 <= i < cs.len() ==> cs[i] is Percentage
}

/// The percentages asked for by the first `k` constraints together.
pub open spec fn percent_before(cs: Seq<Constraint>, k: int) -> int
    decreases k,
{
    if k <= 0 {
        0
    } else {
        percent_before(cs, k - 1) + percent_of(cs[k - 1])
    }
}

/// Splits `area` with `ratatui::layout::Layout::split` (no margin, default
/// flex `Start`, no spacing), one piece per constraint. Every piece spans the
/// whole area across the direction (`changes_to_rects`, `layout.rs:976`)
/// and lies within it along the direction (the required constraints of
/// `configure_area` and `configure_variable_in_area_constraints`).
///
/// Where the area is measurable, two shapes of constraints have one best
/// solution under the strengths of `layout.rs` (first spacer empty at
/// `REQUIRED - 1`, inner spacers empty at `SPACER_SIZE_EQ`, `MIN_SIZE_GE`
/// above `LENGTH_SIZE_EQ` above `PERCENTAGE_SIZE_EQ`, a `Min` piece growing
/// at `FILL_GROW` ahead of the last spacer at `GROW`), so whatever order the
/// solver's hash maps are walked in, it is that solution:
/// - percentages adding up to at most 100: the pieces follow one another
///   from the start, piece `i` ending where the first `i + 1` percentages of
///   the span end, rounded to the nearest cell (the rest is the last
///   spacer);
/// - `Length(a)`, `Min(b)`, `Length(c)` with `a + b + c` within the span:
///   `a` cells, the rest, then `c` cells ending at the end of the span.
/// Of other constraints only the first two facts are stated.
#[verifier::external_body]
fn split(area: Rect, direction: Direction, constraints: &Vec<Constraint>) -> (r: Vec<Rect>)
    ensures
        r.len() == constraints.len(),
        forall|i: int| 0 <= i < r.len() ==> piece_of(#[trigger] r@[i], area, direction),
        measurable(area, direction) && all_percentages(constraints@) && percent_before(
            constraints@,
            constraints@.len() as int,
        ) <= 100 ==> forall|i: int|
            0 <= i < r.len() ==> #[trigger] r@[i] == piece_at(
                area,
                direction,
                span_start(area, direction) + cut(
                    span_len(area, direction),
                    percent_before(constraints@, i),
                ),
                cut(span_len(area, direction), percent_before(constraints@, i + 1)) - cut(
                    span_len(area, direction),
                    percent_before(constraints@, i),
                ),
            ),
        measurable(area, direction) && constraints@.len() == 3 && constraints@[0] is Length
            && constraints@[1] is Min && constraints@[2] is Length && constraints@[0]->Length_0
            + constraints@[1]->Min_0 + constraints@[2]->Length_0 <= span_len(area, direction) ==> ({
            let s = span_start(area, direction);
            let n = span_len(area, direction);
            let a = constraints@[0]->Length_0 as int;
            let c = constraints@[2]->Length_0 as int;
            r@ == seq![
                piece_at(area, direction, s, a),
                piece_at(area, direction, s + a, n - a - c),
                piece_at(area, direction, s + n - c, c),
            ]
        }),
{
    let dir = match direction {
        Direction::Horizontal => rl::Direction::Horizontal,
        Direction::Vertical => rl::Direction::Vertical,
    };
    let cs = constraints.iter().map(|c| match *c {
        Constraint::Length(n) => rl::Constraint::Length(n),
        Constraint::Min(n) => rl::Constraint::Min(n),
        Constraint::Percentage(n) => rl::Constraint::Percentage(n),
    });
    let a = rl::Rect { x: area.x, y: area.y, width: area.width, height: area.height };
    let pieces = rl::Layout::default().direction(dir).constraints(cs).split(a);
    pieces.iter().map(|p| Rect { x: p.x, y: p.y, width: p.width, height: p.height }).collect()
}

/// Three constraints as a vector.
fn three(a: Constraint, b: Constraint, c: Constraint) -> (r: Vec<Constraint>)
    ensures
        r@ == seq![a, b, c],
{
    let mut v = Vec::new();
    v.push(a);
    v.push(b);
    v.push(c);
    assert(v@ =~= seq![a, b, c]);
    v
}

/// Two constraints as a vector.
fn two(a: Constraint, b: Constraint) -> (r: Vec<Constraint>)
    ensures
        r@ == seq![a, b],
{
    let mut v = Vec::new();
    v.push(a);
    v.push(b);
    assert(v@ =~= seq![a, b]);
    v
}

/// The shape of the screen's areas `(tabs, list, detail, files, status)`:
/// the tabs and the status line are rows of the screen; the list is a column
/// of the body row between them; the detail and the linked files are rows of
/// another column of that body row.
pub open spec fn screen_shape(area: Rect, r: (Rect, Rect, Rect, Rect, Rect)) -> bool {
    exists|body: Rect, column: Rect|
        {
            &&& piece_of(body, area, Direction::Vertical)
            &&& piece_of(column, body, Direction::Horizontal)
            &&& piece_of(r.0, area, Direction::Vertical)
            &&& piece_of(r.4, area, Direction::Vertical)
            &&& piece_of(r.1, body, Direction::Horizontal)
            &&& piece_of(r.2, column, Direction::Vertical)
            &&& piece_of(r.3, column, Direction::Vertical)
        }
}

/// The screen is tall enough for both bars and a body row, and small
/// enough to be measured (see `measurable`).
pub open spec fn fits_screen(area: Rect) -> bool {
    &&& area.height >= 7
    &&& measurable(area, Direction::Vertical)
    &&& measurable(area, Direction::Horizontal)
}

/// The five areas of a screen that fits: the tabs are its first 3 rows and
/// the status line its last 3; the body row between them is cut into the
/// task list (40% of its width, rounded) and a column holding the task
/// detail (70% of its height, rounded) above the linked files.
pub open spec fn screen_layout(area: Rect) -> (Rect, Rect, Rect, Rect, Rect) {
    let x = area.x as int;
    let y = area.y as int;
    let w = area.width as int;
    let h = area.height as int;
    let body = h - 6;
    let list_w = cut(w, 40);
    let detail_h = cut(body, 70);
    (
        Rect { x: x as u16, y: y as u16, width: w as u16, height: 3 },
        Rect { x: x as u16, y: (y + 3) as u16, width: list_w as u16, height: body as u16 },
        Rect {
            x: (x + list_w) as u16,
            y: (y + 3) as u16,
            width: (w - list_w) as u16,
            height: detail_h as u16,
        },
        Rect {
            x: (x + list_w) as u16,
            y: (y + 3 + detail_h) as u16,
            width: (w - list_w) as u16,
            height: (body - detail_h) as u16,
        },
        Rect { x: x as u16, y: (y + h - 3) as u16, width: w as u16, height: 3 },
    )
}

/// The five areas of the screen: tabs (3 rows), task list (40% of the body
/// row), task detail and linked files (70% and 30% of the other 60%) and
/// status line (3 rows), as the layout solver places them. On a screen that
/// fits they are exactly `screen_layout`.
pub fn get_layout(area: Rect) -> (r: (Rect, Rect, Rect, Rect, Rect))
    ensures
        screen_shape(area, r),
        fits_screen(area) ==> r == screen_layout(area),
{
    let rows = split(
        area,
        Direction::Vertical,
        &three(Constraint::Length(3), Constraint::Min(1), Constraint::Length(3)),
    );
    let cols = split(
        rows[1],
        Direction::Horizontal,
        &two(Constraint::Percentage(40), Constraint::Percentage(60)),
    );
    let details = split(
        cols[1],
        Direction::Vertical,
        &two(Constraint::Percentage(70), Constraint::Percentage(30)),
    );
    let r = (rows[0], cols[0], details[0], details[1], rows[2]);
    assert(piece_of(rows@[0], area, Direction::Vertical));
    assert(piece_of(rows@[2], area, Direction::Vertical));
    assert(piece_of(cols@[0], rows@[1], Direction::Horizontal));
    assert(piece_of(details@[0], cols@[1], Direction::Vertical));
    assert(piece_of(details@[1], cols@[1], Direction::Vertical));
    assert(piece_of(rows@[1], area, Direction::Vertical));
    assert(piece_of(cols@[1], rows@[1], Direction::Horizontal));
    proof {
        if fits_screen(area) {
            let x = area.x as int;
            let y = area.y as int;
            let w = area.width as int;
            let h = area.height as int;
            let body = h - 6;
            assert(rows@[1] == Rect { x: area.x, y: (y + 3) as u16, width: area.width, height: body as u16 });
            let c2 = seq![Constraint::Percentage(40), Constraint::Percentage(60)];
            assert(percent_before(c2, 0) == 0);
            assert(percent_before(c2, 1) == 40);
            assert(percent_before(c2, 2) == 100);
            assert(cut(w, 0) == 0);
            assert(cut(w, 100) == w);
            let c3 = seq![Constraint::Percentage(70), Constraint::Percentage(30)];
            assert(percent_before(c3, 0) == 0);
            assert(percent_before(c3, 1) == 70);
            assert(percent_before(c3, 2) == 100);
            assert(cut(body, 0) == 0);
            assert(cut(body, 100) == body);
            assert(0 <= cut(w, 40) <= w) by (nonlinear_arith)
                requires 0 <= w;
            assert(0 <= cut(body, 70) <= body) by (nonlinear_arith)
                requires 0 <= body;
            assert(cols@[0] == r.1);
            assert(cols@[1] == Rect {
                x: (x + cut(w, 40)) as u16,
                y: (y + 3) as u16,
                width: (w - cut(w, 40)) as u16,
                height: body as u16,
            });
            assert(details@[0] == r.2);
            assert(details@[1] == r.3);
            assert(r == screen_layout(area));
        }
    }
    assert(screen_shape(area, r)) by {
        let body = rows@[1];
        let column = cols@[1];
        assert(piece_of(body, area, Direction::Vertical) && piece_of(column, body, Direction::Horizontal)
            && piece_of(r.0, area, Direction::Vertical) && piece_of(r.4, area, Direction::Vertical)
            && piece_of(r.1, body, Direction::Horizontal) && piece_of(r.2, column, Direction::Vertical)
            && piece_of(r.3, column, Direction::Vertical));
    }
    r
}

/// The middle of `r` that takes `percent_y` of its height and `percent_x`
/// of its width, with `(100 - percent)/2` percent left on either side before
/// it, every boundary rounded to the nearest cell.
pub open spec fn centered(percent_x: int, percent_y: int, r: Rect) -> Rect {
    let side_y = (100 - percent_y) / 2;
    let side_x = (100 - percent_x) / 2;
    let w = r.width as int;
    let h = r.height as int;
    Rect {
        x: (r.x + cut(w, side_x)) as u16,
        y: (r.y + cut(h, side_y)) as u16,
        width: (cut(w, side_x + percent_x) - cut(w, side_x)) as u16,
        height: (cut(h, side_y + percent_y) - cut(h, side_y)) as u16,
    }
}

/// A rectangle in the middle of `r` taking `percent_x` of its width and
/// `percent_y` of its height, the rest shared evenly on both sides, as the
/// layout solver places it: a column of a row of `r`, so it lies within `r`;
/// where `r` is measurable it is exactly `centered`.
pub fn centered_rect(percent_x: u16, percent_y: u16, r: Rect) -> (c: Rect)
    requires
        percent_x <= 100,
        percent_y <= 100,
    ensures
        measurable(r, Direction::Vertical) && measurable(r, Direction::Horizontal) ==> c
            == centered(percent_x as int, percent_y as int, r),
        exists|middle: Rect|
            piece_of(middle, r, Direction::Vertical) && piece_of(c, middle, Direction::Horizontal),
        r.x <= c.x,
        c.x + c.width <= r.x + r.width,
        r.y <= c.y,
        c.y + c.height <= r.y + r.height,
{
    let side_y = (100 - percent_y) / 2;
    let side_x = (100 - percent_x) / 2;
    let rows = split(
        r,
        Direction::Vertical,
        &three(
            Constraint::Percentage(side_y),
            Constraint::Percentage(percent_y),
            Constraint::Percentage(side_y),
        ),
    );
    let cols = split(
        rows[1],
        Direction::Horizontal,
        &three(
            Constraint::Percentage(side_x),
            Constraint::Percentage(percent_x),
            Constraint::Percentage(side_x),
        ),
    );
    assert(piece_of(rows@[1], r, Direction::Vertical));
    assert(piece_of(cols@[1], rows@[1], Direction::Horizontal));
    proof {
        if measurable(r, Direction::Vertical) && measurable(r, Direction::Horizontal) {
            let cy = seq![
                Constraint::Percentage(side_y),
                Constraint::Percentage(percent_y),
                Constraint::Percentage(side_y),
            ];
            assert(percent_before(cy, 0) == 0);
            assert(percent_before(cy, 1) == side_y);
            assert(percent_before(cy, 2) == side_y + percent_y);
            assert(percent_before(cy, 3) == 2 * side_y + percent_y);
            let cx = seq![
                Constraint::Percentage(side_x),
                Constraint::Percentage(percent_x),
                Constraint::Percentage(side_x),
            ];
            assert(percent_before(cx, 0) == 0);
            assert(percent_before(cx, 1) == side_x);
            assert(percent_before(cx, 2) == side_x + percent_x);
            assert(percent_before(cx, 3) == 2 * side_x + percent_x);
            let w = r.width as int;
            let h = r.height as int;
            assert(0 <= cut(h, side_y as int) <= cut(h, side_y + percent_y) <= h) by (nonlinear_arith)
                requires 0 <= h, 0 <= side_y, side_y + percent_y <= 100, 0 <= percent_y;
            assert(0 <= cut(w, side_x as int) <= cut(w, side_x + percent_x) <= w) by (nonlinear_arith)
                requires 0 <= w, 0 <= side_x, side_x + percent_x <= 100, 0 <= percent_x;
            assert(rows@[1] == Rect {
                x: r.x,
                y: (r.y + cut(h, side_y as int)) as u16,
                width: r.width,
                height: (cut(h, side_y + percent_y) - cut(h, side_y as int)) as u16,
            });
            assert(cols@[1] == centered(percent_x as int, percent_y as int, r));
        }
    }
    cols[1]
}

} // verus!
