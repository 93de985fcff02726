//! Rectangles of the screen, and how they are cut up.
use vstd::prelude::*;

use ratatui::layout::{Constraint, Direction, Layout, Rect};
use ratatui::widgets::{Block, Borders};

verus! {

/// A rectangle of the screen.
#[derive(Clone, Copy, Debug, PartialEq, Eq, Structural)]
pub struct Area {
    pub x: u16,
    pub y: u16,
    pub width: u16,
    pub height: u16,
}

/// The direction in which a rectangle is cut up.
#[derive(Clone, Copy, Debug, PartialEq, Eq, Structural)]
pub enum Axis {
    Vertical,
    Horizontal,
}

/// How much of a rectangle a part takes: so many cells, at least so many and
/// what is left over, or a fraction of all.
#[derive(Clone, Copy, Debug, PartialEq, Eq, Structural)]
pub enum Extent {
    Length(u16),
    Min(u16),
    Ratio(u32, u32),
}

impl Area {
    /// The rectangle ends within the numbers that its cells have.
    pub open spec fn fits(self) -> bool {
        self.x + self.width <= u16::MAX && self.y + self.height <= u16::MAX
    }

    /// Where the rectangle begins along an axis.
    pub open spec fn start(self, axis: Axis) -> int {
        match axis {
            Axis::Vertical => self.y as int,
            Axis::Horizontal => self.x as int,
        }
    }

    /// How many cells it has along an axis.
    pub open spec fn size(self, axis: Axis) -> int {
        match axis {
            Axis::Vertical => self.height as int,
            Axis::Horizontal => self.width as int,
        }
    }

    /// The rectangles are the same across an axis.
    pub open spec fn is_level(self, other: Area, axis: Axis) -> bool {
        match axis {
            Axis::Vertical => self.x == other.x && self.width == other.width,
            Axis::Horizontal => self.y == other.y && self.height == other.height,
        }
    }
}

/// The least that a part takes.
pub open spec fn least(extent: Extent) -> nat {
    match extent {
        Extent::Length(n) => n as nat,
        Extent::Min(n) => n as nat,
        Extent::Ratio(_, _) => 0,
    }
}

/// The least that the parts take together.
pub open spec fn least_of(extents: Seq<Extent>) -> nat
    decreases extents.len(),
{
    if extents.len() == 0 {
        0
    } else {
        least_of(extents.drop_last()) + least(extents.last())
    }
}

/// Part `m` takes what the others leave, and there is room for all of them.
pub open spec fn has_room(extents: Seq<Extent>, m: int, size: int) -> bool {
    &&& 0 <= m < extents.len()
    &&& extents[m] matches Extent::Min(n) && n <= i16::MAX
    &&& forall|i: int| 0 <= i < extents.len() && i != m ==> #[trigger] extents[i] is Length
    &&& least_of(extents) <= size
}

/// Three equal parts.
pub open spec fn thirds() -> Seq<Extent> {
    seq![Extent::Ratio(1, 3), Extent::Ratio(1, 3), Extent::Ratio(1, 3)]
}

/// `parts` are parts of `area`, one for each extent, that lie level in it. Where
/// there is room, fixed parts have their length, the one that grows has the
/// rest, and each begins where the one before it ends. Thirds end at the nearest
/// cell.
pub open spec fn is_split(area: Area, axis: Axis, extents: Seq<Extent>, parts: Seq<Area>) -> bool {
    &&& parts.len() == extents.len()
    &&& forall|i: int| #![trigger parts[i]] 0 <= i < parts.len() ==> {
        &&& parts[i].is_level(area, axis)
        &&& area.start(axis) <= parts[i].start(axis)
        &&& parts[i].start(axis) + parts[i].size(axis) <= area.start(axis) + area.size(axis)
    }
    &&& forall|m: int| #[trigger] has_room(extents, m, area.size(axis)) ==> {
        &&& parts[0].start(axis) == area.start(axis)
        &&& forall|i: int| #![trigger parts[i]]
            0 < i < parts.len() ==> parts[i].start(axis) == parts[i - 1].start(axis)
                + parts[i - 1].size(axis)
        &&& forall|i: int| #![trigger parts[i]]
            0 <= i < parts.len() && i != m ==> parts[i].size(axis) == least(extents[i])
        &&& parts[m].size(axis) == area.size(axis) - least_of(extents) + least(extents[m])
    }
    &&& extents == thirds() ==> forall|i: int| #![trigger parts[i]]
        0 <= i < 3 ==> {
            &&& parts[i].start(axis) == area.start(axis) + third(area.size(axis), i)
            &&& parts[i].size(axis) == third(area.size(axis), i + 1) - third(area.size(axis), i)
        }
}

/// `i` thirds of `size`, to the nearest whole cell.
pub open spec fn third(size: int, i: int) -> int {
    (2 * i * size + 3) / 6
}

/// Cells in rows of three: every row of a grid cut into thirds.
pub open spec fn is_grid(rows: Seq<Area>, cells: Seq<Area>) -> bool {
    &&& cells.len() == 3 * rows.len()
    &&& forall|r: int| #![trigger rows[r]]
        0 <= r < rows.len() ==> is_split(
            rows[r],
            Axis::Horizontal,
            thirds(),
            cells.subrange(3 * r, 3 * r + 3),
        )
}

/// Cuts an area into thirds.
fn three_parts(area: Area, axis: Axis) -> (parts: Vec<Area>)
    requires
        area.fits(),
    ensures
        is_split(area, axis, thirds(), parts@),
{
    let mut extents: Vec<Extent> = Vec::new();
    extents.push(Extent::Ratio(1, 3));
    extents.push(Extent::Ratio(1, 3));
    extents.push(Extent::Ratio(1, 3));
    proof {
        assert(extents@ =~= thirds());
    }
    split(area, axis, &extents)
}

/// A grid of three rows with three cells each, row by row.
pub fn nine_cells(area: Area) -> (cells: Vec<Area>)
    requires
        area.fits(),
    ensures
        exists|rows: Seq<Area>| #[trigger]
            is_split(area, Axis::Vertical, thirds(), rows) && is_grid(rows, cells@),
        cells.len() == 9,
        forall|i: int| 0 <= i < 9 ==> (#[trigger] cells[i]).fits(),
{
    let rows: Vec<Area> = three_parts(area, Axis::Vertical);
    let mut cells: Vec<Area> = Vec::new();
    let mut r: usize = 0;
    while r < 3
        invariant
            r <= 3,
            area.fits(),
            is_split(area, Axis::Vertical, thirds(), rows@),
            cells.len() == 3 * r,
            is_grid(rows@.take(r as int), cells@),
            forall|i: int| 0 <= i < cells.len() ==> (#[trigger] cells[i]).fits(),
        decreases 3 - r,
    {
        let ghost before = cells@;
        let columns: Vec<Area> = three_parts(rows[r], Axis::Horizontal);
        cells.push(columns[0]);
        cells.push(columns[1]);
        cells.push(columns[2]);
        proof {
            let done = rows@.take(r + 1);
            assert forall|k: int| #![trigger done[k]] 0 <= k < done.len() implies is_split(
                done[k],
                Axis::Horizontal,
                thirds(),
                cells@.subrange(3 * k, 3 * k + 3),
            ) by {
                if k == r {
                    assert(cells@.subrange(3 * k, 3 * k + 3) =~= columns@);
                } else {
                    assert(rows@.take(r as int)[k] == done[k]);
                    assert(cells@.subrange(3 * k, 3 * k + 3) =~= before.subrange(3 * k, 3 * k + 3));
                }
            }
        }
        r = r + 1;
    }
    proof {
        assert(rows@.take(3) =~= rows@);
    }
    cells
}

/// `ratatui::layout::Layout::split` with no margin and no spacing.
///
/// There is one part per constraint. A part keeps the rectangle's extent across
/// the axis and, along it, lies within the rectangle, which the solver has as
/// required. Lengths, minima and gaps are all met where they can be; a minimum
/// then grows rather than the gap at the end. Ratios are fractions of the whole.
/// Left open is how the cells are shared where there is no room for all: then
/// the solver's answer can depend on the order in which it walks its hash maps.
#[verifier::external_body]
pub(crate) fn split(area: Area, axis: Axis, extents: &Vec<Extent>) -> (parts: Vec<Area>)
    requires
        area.fits(),
    ensures
        is_split(area, axis, extents@, parts@),
{
    let direction = match axis {
        Axis::Vertical => Direction::Vertical,
        Axis::Horizontal => Direction::Horizontal,
    };
    let constraints = extents.iter().map(|e| match *e {
        Extent::Length(n) => Constraint::Length(n),
        Extent::Min(n) => Constraint::Min(n),
        Extent::Ratio(n, d) => Constraint::Ratio(n, d),
    });
    let layout = Layout::default().direction(direction).constraints(constraints);
    let Area { x, y, width, height } = area;
    let rects = layout.split(Rect { x, y, width, height });
    rects.iter().map(|&Rect { x, y, width, height }| Area { x, y, width, height }).collect()
}

/// What a frame of one cell leaves of an area.
pub open spec fn inside(area: Area) -> Area {
    Area {
        x: if area.width == 0 {
            area.x
        } else {
            (area.x + 1) as u16
        },
        y: if area.height == 0 {
            area.y
        } else {
            (area.y + 1) as u16
        },
        width: if area.width < 2 {
            0
        } else {
            (area.width - 2) as u16
        },
        height: if area.height < 2 {
            0
        } else {
            (area.height - 2) as u16
        },
    }
}

/// `ratatui::widgets::Block::inner` of a block with all borders: one cell is
/// taken on each side, as far as there are any.
#[verifier::external_body]
pub(crate) fn frame_inner(area: Area) -> (r: Area)
    requires
        area.fits(),
    ensures
        r == inside(area),
{
    let Area { x, y, width, height } = area;
    let r = Block::default().borders(Borders::ALL).inner(Rect { x, y, width, height });
    Area { x: r.x, y: r.y, width: r.width, height: r.height }
}

/// The row in the middle of an area.
pub open spec fn middle(area: Area) -> Area {
    Area { x: area.x, y: (area.y + area.height / 2) as u16, width: area.width, height: 1 }
}

pub fn centered_row(area: Area) -> (r: Area)
    requires
        area.y + area.height / 2 <= u16::MAX,
    ensures
        r == middle(area),
{
    let mid: u16 = area.height / 2;
    Area { x: area.x, y: area.y + mid, width: area.width, height: 1 }
}

/// Law: thirds are cut at the nearest cells. Three of them are the whole, none of
/// them nothing, and no third is a cell longer or shorter than another by more
/// than one.
pub proof fn law_thirds_are_even(size: int, i: int)
    requires
        0 <= size,
        0 <= i <= 3,
    ensures
        -3 <= 6 * third(size, i) - 2 * i * size <= 3,
        third(size, 0) == 0,
        third(size, 3) == size,
{
    assert(2 * 0 * size == 0 && 2 * 3 * size == 6 * size) by (nonlinear_arith);
    let x = 2 * i * size;
    assert(6 * ((x + 3) / 6) <= x + 3 < 6 * ((x + 3) / 6) + 6);
}

/// Law: the row in the middle has as many rows above it as half the height, and
/// spans the area.
pub proof fn law_middle_row_is_halfway(area: Area, r: Area)
    requires
        call_ensures(centered_row, (area,), r),
        area.y + area.height / 2 <= u16::MAX,
    ensures
        r.x == area.x,
        r.width == area.width,
        r.height == 1,
        area.height - 1 <= 2 * (r.y - area.y) <= area.height,
{
}

/// Law: a grid has three cells to a row, and each cell is a third of its row,
/// to the nearest column.
pub proof fn law_grid_cells_are_thirds_of_rows(rows: Seq<Area>, cells: Seq<Area>, r: int, c: int)
    requires
        is_grid(rows, cells),
        0 <= r < rows.len(),
        0 <= c < 3,
    ensures
        cells.len() == 3 * rows.len(),
        cells[3 * r + c].y == rows[r].y,
        cells[3 * r + c].height == rows[r].height,
        -3 <= 6 * (cells[3 * r + c].x - rows[r].x) - 2 * c * rows[r].width <= 3,
        -3 <= 6 * (cells[3 * r + c].x + cells[3 * r + c].width - rows[r].x) - 2 * (c + 1)
            * rows[r].width <= 3,
{
    let part = cells.subrange(3 * r, 3 * r + 3);
    assert(is_split(rows[r], Axis::Horizontal, thirds(), part));
    assert(part[c] == cells[3 * r + c]);
    law_thirds_are_even(rows[r].width as int, c);
    law_thirds_are_even(rows[r].width as int, c + 1);
}

} // verus!
