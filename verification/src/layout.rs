use vstd::prelude::*;

use ratatui::layout::{Constraint, Direction, Layout, Rect};

verus! {

/// A rectangle of terminal cells.
#[derive(Debug, Clone, Copy, PartialEq, Eq, Structural)]
pub struct Area {
    pub x: u16,
    pub y: u16,
    pub width: u16,
    pub height: u16,
}

/// How much room a part of a split asks for.
#[derive(Debug, Clone, Copy, PartialEq, Eq, Structural)]
pub enum Sizing {
    /// A share of what the other parts leave.
    Fill(u16),
    /// A fixed number of cells.
    Length(u16),
    /// A percentage of the whole.
    Percentage(u16),
}

/// What ratatui's `Layout::split` returns for the area and constraints,
/// stacked top to bottom when `vertical`, left to right otherwise.
pub uninterp spec fn split_result(area: Area, vertical: bool, parts: Seq<Sizing>) -> Seq<Area>;

/// ratatui's `Layout::new(direction, constraints).split(area)`: one area per
/// constraint, as its documentation says. The solver's own failure (it
/// panics with "failed to split") is not characterized here.
#[verifier::external_body]
fn split_area(area: Area, vertical: bool, parts: &Vec<Sizing>) -> (r: Vec<Area>)
    ensures
        r@ == split_result(area, vertical, parts@),
        r@.len() == parts@.len(),
{
    let direction = if vertical { Direction::Vertical } else { Direction::Horizontal };
    let constraints = parts.iter().map(|p| match *p {
        Sizing::Fill(n) => Constraint::Fill(n),
        Sizing::Length(n) => Constraint::Length(n),
        Sizing::Percentage(n) => Constraint::Percentage(n),
    });
    let rects = Layout::new(direction, constraints).split(Rect::new(area.x, area.y, area.width, area.height));
    rects.iter().map(|r| Area { x: r.x, y: r.y, width: r.width, height: r.height }).collect()
}

/// Three parts: the middle one sized by `middle`, the outer two sharing the rest.
pub open spec fn around(middle: Sizing) -> Seq<Sizing> {
    seq![Sizing::Fill(1), middle, Sizing::Fill(1)]
}

fn around_exec(middle: Sizing) -> (v: Vec<Sizing>)
    ensures
        v@ == around(middle),
{
    let mut v: Vec<Sizing> = Vec::new();
    v.push(Sizing::Fill(1));
    v.push(middle);
    v.push(Sizing::Fill(1));
    assert(v@ =~= around(middle));
    v
}

/// The popup area centred in `r`: `height` rows tall and `width_pct` percent wide.
pub fn centered_rect(r: Area, width_pct: u16, height: u16) -> (c: Area)
    ensures
        c == split_result(
            split_result(r, true, around(Sizing::Length(height)))[1],
            false,
            around(Sizing::Percentage(width_pct)),
        )[1],
{
    let rows = split_area(r, true, &around_exec(Sizing::Length(height)));
    let band = rows[1];
    let cols = split_area(band, false, &around_exec(Sizing::Percentage(width_pct)));
    cols[1]
}

} // verus!
