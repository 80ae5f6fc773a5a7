//! Screen areas: the popup placement inside the terminal.

use vstd::prelude::*;
use ratatui::layout::{Constraint, Direction, Layout, Rect};

verus! {

/// A rectangle of terminal cells.
#[derive(Clone, Copy, Debug, PartialEq, Eq, Structural)]
pub struct Area {
    pub x: u16,
    pub y: u16,
    pub width: u16,
    pub height: u16,
}

/// The first column right of `a`, clamped to the largest `u16` as a
/// terminal coordinate is.
pub open spec fn right_edge(a: Area) -> int {
    if a.x + a.width > u16::MAX { u16::MAX as int } else { a.x + a.width }
}

/// The first row below `a`, clamped to the largest `u16`.
pub open spec fn bottom_edge(a: Area) -> int {
    if a.y + a.height > u16::MAX { u16::MAX as int } else { a.y + a.height }
}

/// `part` is a horizontal band of `area`: full width, rows within `area`.
pub open spec fn is_band_of(part: Area, area: Area) -> bool {
    &&& part.x == area.x
    &&& part.width == area.width
    &&& area.y <= part.y
    &&& part.y + part.height <= bottom_edge(area)
}

/// `part` is a vertical column of `area`: full height, columns within `area`.
pub open spec fn is_column_of(part: Area, area: Area) -> bool {
    &&& part.y == area.y
    &&& part.height == area.height
    &&& area.x <= part.x
    &&& part.x + part.width <= right_edge(area)
}

/// `inner` lies inside `outer`.
pub open spec fn lies_inside(inner: Area, outer: Area) -> bool {
    &&& outer.x <= inner.x
    &&& inner.x + inner.width <= right_edge(outer)
    &&& outer.y <= inner.y
    &&& inner.y + inner.height <= bottom_edge(outer)
}

/// Cells from the start of an extent of `size` cells to the point `share`
/// percent into it, rounded to the nearest cell, halves rounded up.
pub open spec fn percent_offset(size: int, share: int) -> int {
    (share * size + 50) / 100
}

/// Sum of the first `i` of three percentages.
pub open spec fn share_before(p: Seq<u16>, i: int) -> int {
    if i <= 0 {
        0
    } else if i == 1 {
        p[0] as int
    } else if i == 2 {
        p[0] + p[1]
    } else {
        p[0] + p[1] + p[2]
    }
}

/// Part `i` of `area` cut by three percentages that add up to at most 100:
/// horizontal bands from the top when `vertical`, else columns from the left.
/// Each part starts at its percentage offset and ends where the next begins;
/// what the percentages leave over stays unused after the last part.
pub open spec fn percent_part(area: Area, vertical: bool, p: Seq<u16>, i: int) -> Area {
    if vertical {
        let size = bottom_edge(area) - area.y;
        let a = percent_offset(size, share_before(p, i));
        let b = percent_offset(size, share_before(p, i + 1));
        Area { x: area.x, y: (area.y + a) as u16, width: area.width, height: (b - a) as u16 }
    } else {
        let size = right_edge(area) - area.x;
        let a = percent_offset(size, share_before(p, i));
        let b = percent_offset(size, share_before(p, i + 1));
        Area { x: (area.x + a) as u16, y: area.y, width: (b - a) as u16, height: area.height }
    }
}

/// Calls `ratatui::layout::Layout::split` with three `Constraint::Percentage`
/// constraints, no margin, no spacing and the default `Flex::Start`.
///
/// One area comes back per constraint, each a band of `area` (when
/// `vertical`) or a column of it (else): every solver variable is held inside
/// the area at required strength and the result is rounded within it.
///
/// When the percentages add up to at most 100, the constraints that outweigh
/// the weak growing ones (first spacer empty, spacers between parts empty,
/// each part its percentage of the area, in units of a hundredth of a cell)
/// can all hold at once, and they fix every solver variable; the solver then
/// returns that solution, and rounding to whole cells (halves away from zero)
/// gives `percent_part`. For larger sums no such placement is stated.
#[verifier::external_body]
fn split_percentages(area: Area, vertical: bool, percents: [u16; 3]) -> (r: Vec<Area>)
    ensures
        r@.len() == 3,
        forall|i: int| 0 <= i < 3 ==> (if vertical { is_band_of(#[trigger] r@[i], area) } else { is_column_of(r@[i], area) }),
        percents@[0] + percents@[1] + percents@[2] <= 100 ==>
            forall|i: int| 0 <= i < 3 ==> #[trigger] r@[i] == percent_part(area, vertical, percents@, i),
{
    let direction = if vertical { Direction::Vertical } else { Direction::Horizontal };
    let rect = Rect { x: area.x, y: area.y, width: area.width, height: area.height };
    let parts = Layout::default()
        .direction(direction)
        .constraints(percents.map(Constraint::Percentage))
        .split(rect);
    parts.iter().map(|p| Area { x: p.x, y: p.y, width: p.width, height: p.height }).collect()
}

/// The popup `percent_x` percent wide and `percent_y` percent high in the
/// middle of `r`: the middle band after a top margin of half the remaining
/// height, then the middle column of that band after a left margin of half
/// the remaining width.
pub open spec fn centered_area(percent_x: u16, percent_y: u16, r: Area) -> Area {
    let margin_y = ((100 - percent_y) / 2) as u16;
    let margin_x = ((100 - percent_x) / 2) as u16;
    let band = percent_part(r, true, seq![margin_y, percent_y, margin_y], 1);
    percent_part(band, false, seq![margin_x, percent_x, margin_x], 1)
}

/// A popup of 100 percent in both directions covers the whole area, when
/// the area ends before the largest coordinate.
pub proof fn lemma_full_popup_is_the_area(r: Area)
    requires
        r.x + r.width <= u16::MAX,
        r.y + r.height <= u16::MAX,
    ensures
        centered_area(100, 100, r) == r,
{
    let h = r.height as int;
    let w = r.width as int;
    assert((100 * h + 50) / 100 == h) by (nonlinear_arith);
    assert((100 * w + 50) / 100 == w) by (nonlinear_arith);
    assert((0 * h + 50) / 100 == 0) by (nonlinear_arith);
    assert((0 * w + 50) / 100 == 0) by (nonlinear_arith);
    let band = percent_part(r, true, seq![0u16, 100u16, 0u16], 1);
    assert(band == r);
}

/// The popup `percent_x` percent wide and `percent_y` percent high in the
/// middle of `r` (see `centered_area`); it lies inside `r`.
pub fn centered_rect(percent_x: u16, percent_y: u16, r: Area) -> (c: Area)
    requires
        percent_x <= 100,
        percent_y <= 100,
    ensures
        c == centered_area(percent_x, percent_y, r),
        lies_inside(c, r),
{
    let margin_y = (100 - percent_y) / 2;
    let bands = split_percentages(r, true, [margin_y, percent_y, margin_y]);
    assert([margin_y, percent_y, margin_y]@ =~= seq![margin_y, percent_y, margin_y]);
    let band = bands[1];
    assert(is_band_of(band, r));
    let margin_x = (100 - percent_x) / 2;
    let columns = split_percentages(band, false, [margin_x, percent_x, margin_x]);
    assert([margin_x, percent_x, margin_x]@ =~= seq![margin_x, percent_x, margin_x]);
    let c = columns[1];
    assert(is_column_of(c, band));
    c
}

} // verus!
