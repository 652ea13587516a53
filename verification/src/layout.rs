//! Where the parts of the screen lie.

use vstd::prelude::*;

verus! {

/// A rectangle of terminal cells.
#[derive(Clone, Copy, PartialEq, Eq, Structural)]
pub struct Area {
    pub x: u16,
    pub y: u16,
    pub width: u16,
    pub height: u16,
}

/// Rows the header takes.
pub const HEADER_ROWS: u16 = 3;

/// Rows that the body may shrink to.
pub const BODY_ROWS: u16 = 0;

/// Rows the footer takes.
pub const FOOTER_ROWS: u16 = 2;

/// The rows start at the top of `area`, follow one another without gap or overlap, and
/// end at its bottom.
pub open spec fn fill(rows: Seq<Area>, area: Area) -> bool {
    &&& rows[0].y == area.y
    &&& rows[1].y == rows[0].y + rows[0].height
    &&& rows[2].y == rows[1].y + rows[1].height
    &&& rows[2].y + rows[2].height == area.y + area.height
}

/// Three areas, each as wide as `area` and in its columns, which fill it from the top
/// down, if `area` ends within the rows that can be counted.
pub open spec fn are_rows(rows: Seq<Area>, area: Area) -> bool {
    &&& rows.len() == 3
    &&& forall|i: int|
        0 <= i < 3 ==> (#[trigger] rows[i]).x == area.x && rows[i].width == area.width
    &&& area.y + area.height <= u16::MAX ==> fill(rows, area)
}

/// `area` holds `top` and `bottom` rows and at least `middle` more between them.
pub open spec fn has_room(area: Area, top: u16, middle: u16, bottom: u16) -> bool {
    &&& top + middle + bottom <= area.height
    &&& area.y + area.height <= u16::MAX
    &&& middle <= i16::MAX
}

/// `area` does not even hold `top` and `bottom` rows.
pub open spec fn is_short(area: Area, top: u16, bottom: u16) -> bool {
    &&& area.height < top + bottom
    &&& area.y + area.height <= u16::MAX
}

/// The first and the last row are at most `top` and `bottom` high, and nothing is between
/// them.
pub open spec fn are_cut(rows: Seq<Area>, top: u16, bottom: u16) -> bool {
    &&& rows[0].height <= top
    &&& rows[1].height == 0
    &&& rows[2].height <= bottom
}

/// `top` rows of `area`, then all that is left, then `bottom` rows.
pub open spec fn stacked(area: Area, top: u16, bottom: u16) -> Seq<Area> {
    seq![
        Area { height: top, ..area },
        Area {
            y: (area.y + top) as u16,
            height: (area.height - top - bottom) as u16,
            ..area
        },
        Area { y: (area.y + area.height - bottom) as u16, height: bottom, ..area },
    ]
}

/// Calls `split` of `ratatui::layout::Layout`, for a vertical layout of `top` rows, at
/// least `middle` rows and `bottom` rows. There are three areas, in this order, and each
/// keeps the left edge and the width of `area`. There is no space between them and none
/// is left over. Where there is room, every length is met, and the middle takes what is
/// left. Where `middle` may be nothing and there is no room for the other two, it is
/// nothing, and neither of them is higher than asked for: a row more than `top` or
/// `bottom`, or one in the middle, weighs more than all that could be gained by it. Which
/// of the two gives way is a solver's choice, which walks hash maps, and is not stated.
#[verifier::external_body]
pub(crate) fn split_rows(area: Area, top: u16, middle: u16, bottom: u16) -> (rows: Vec<Area>)
    ensures
        are_rows(rows@, area),
        has_room(area, top, middle, bottom) ==> rows@ == stacked(area, top, bottom),
        middle == 0 && is_short(area, top, bottom) ==> are_cut(rows@, top, bottom),
{
    ratatui::layout::Layout::default()
        .direction(ratatui::layout::Direction::Vertical)
        .constraints([
            ratatui::layout::Constraint::Length(top),
            ratatui::layout::Constraint::Min(middle),
            ratatui::layout::Constraint::Length(bottom),
        ])
        .split(ratatui::layout::Rect { x: area.x, y: area.y, width: area.width, height: area.height })
        .iter()
        .map(|r| Area { x: r.x, y: r.y, width: r.width, height: r.height })
        .collect()
}

/// Stacked rows fill their area, and have the heights that were asked for.
pub proof fn law_stacked_rows_fill_area(area: Area, top: u16, middle: u16, bottom: u16)
    requires
        has_room(area, top, middle, bottom),
    ensures
        are_rows(stacked(area, top, bottom), area),
        fill(stacked(area, top, bottom), area),
        stacked(area, top, bottom)[0].height == top,
        stacked(area, top, bottom)[1].height >= middle,
        stacked(area, top, bottom)[2].height == bottom,
{
}

/// Where rows are cut, all of `area` goes to the first and the last, and each gets at least
/// what the other cannot take.
pub proof fn law_cut_rows_share_area(rows: Seq<Area>, area: Area, top: u16, bottom: u16)
    requires
        are_rows(rows, area),
        is_short(area, top, bottom),
        are_cut(rows, top, bottom),
    ensures
        rows[0].height + rows[2].height == area.height,
        area.height - bottom <= rows[0].height <= top,
        area.height - top <= rows[2].height <= bottom,
{
}

} // verus!
