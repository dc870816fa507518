//! What is taken from `ratatui`: the types that the widgets pass around, the
//! layout of a layer, and the border round a widget.

use ratatui::buffer::Buffer;
use ratatui::layout::{Constraint, Layout, Rect};
use ratatui::widgets::{Block, Borders};
use ratatui::Frame;
use vstd::prelude::*;

verus! {

/// `ratatui::layout::Rect`: a rectangle of cells, known by its four public
/// fields.
#[verifier::external_type_specification]
pub struct ExRect(Rect);

/// `ratatui::layout::Constraint`: how much room an area asks for, known by
/// its variants.
#[verifier::external_type_specification]
pub struct ExConstraint(Constraint);

/// `ratatui::buffer::Buffer`: the cells of a terminal. Nothing is known of
/// its contents; it is only handed on to widgets.
#[verifier::external_type_specification]
#[verifier::external_body]
pub struct ExBuffer(Buffer);

/// `ratatui::Frame`: the surface of one draw. Nothing is known of its
/// contents; it is only handed on to widgets.
#[verifier::external_type_specification]
#[verifier::external_body]
pub struct ExFrame<'a>(Frame<'a>);

/// `areas` are stacked in `area`: each spans `area` from side to side and
/// lies within it from top to bottom, and they follow each other downwards
/// without overlap.
pub open spec fn is_stacked(area: Rect, areas: Seq<Rect>) -> bool {
    &&& forall|i: int|
        0 <= i < areas.len() ==> (#[trigger] areas[i]).x == area.x && areas[i].width
            == area.width && area.y <= areas[i].y && areas[i].y + areas[i].height <= clip(
            area.y + area.height,
        )
    &&& forall|i: int, j: int|
        0 <= i < j < areas.len() ==> (#[trigger] areas[i]).y + areas[i].height <= (
        #[trigger] areas[j]).y
}

/// `Layout::vertical` and `Layout::split`: the areas that widgets with the
/// given vertical constraints get when they are stacked in `area`.
///
/// Believed: there is one area for each constraint, in the same order, and
/// the areas are stacked in `area` as `is_stacked` says, which is what the
/// constraints that the layout requires of its solver come to. How the
/// height of `area` is shared out among them is left to the solver, whose
/// answer may differ from run to run; nothing is claimed of it.
#[verifier::external_body]
pub(crate) fn split_vertical(constraints: Vec<Constraint>, area: Rect) -> (areas: Vec<Rect>)
    ensures
        areas@.len() == constraints@.len(),
        is_stacked(area, areas@),
{
    Layout::vertical(constraints).split(area).iter().copied().collect()
}

/// The sides of a border, as the bits of `ratatui::widgets::Borders`.
pub const TOP: u8 = 0b0001;

pub const RIGHT: u8 = 0b0010;

pub const BOTTOM: u8 = 0b0100;

pub const LEFT: u8 = 0b1000;

pub const ALL: u8 = 0b1111;

/// What is left of `area` inside a border on the sides `borders`: each side
/// takes one cell, as far as there are cells to take.
pub open spec fn inner_of(borders: u8, area: Rect) -> Rect {
    let left: int = if borders & LEFT != 0 { 1 } else { 0 };
    let top: int = if borders & TOP != 0 { 1 } else { 0 };
    let right: int = if borders & RIGHT != 0 { 1 } else { 0 };
    let bottom: int = if borders & BOTTOM != 0 { 1 } else { 0 };
    Rect {
        x: clip(vstd::math::min(area.x + left, area.x + area.width)),
        y: clip(vstd::math::min(area.y + top, area.y + area.height)),
        width: clip(vstd::math::max(area.width - left - right, 0)),
        height: clip(vstd::math::max(area.height - top - bottom, 0)),
    }
}

/// The coordinate nearest to `at` that a terminal can have.
pub open spec fn clip(at: int) -> u16 {
    if at > u16::MAX {
        u16::MAX
    } else {
        at as u16
    }
}

/// `Block::inner`, of a block without title or padding that has a border on
/// the sides `borders`.
///
/// Believed: a border on the left moves the left edge one cell to the
/// right, but not beyond the right edge of `area`, and takes one cell off
/// the width; a border on the right takes one more; top and bottom do the
/// same to the upper edge and the height.
#[verifier::external_body]
pub(crate) fn block_inner(borders: u8, area: Rect) -> (inner: Rect)
    ensures
        inner == inner_of(borders, area),
{
    Block::default().borders(Borders::from_bits_truncate(borders)).inner(area)
}

/// The length in characters from which on a title is too long for a
/// block: a block keeps the width of its title in sixteen bits and adds
/// one to it, and a character is at most three columns wide.
pub const TITLE_LIMIT: usize = 0x5555;

/// `Frame::render_widget`, of a block without title that has a border on
/// the sides `borders`.
///
/// Nothing is claimed of what the frame then holds.
#[verifier::external_body]
pub(crate) fn render_block(frame: &mut Frame, borders: u8, area: Rect) {
    frame.render_widget(Block::default().borders(Borders::from_bits_truncate(borders)), area);
}

/// `Frame::render_widget`, of a block that has a border on the sides
/// `borders` and the title `title` on top.
///
/// The title has to be shorter than `TITLE_LIMIT`, which keeps its width,
/// at three columns to the character, below the largest number of sixteen
/// bits: with a wider title the call may not return. Nothing is claimed of
/// what the frame then holds.
#[verifier::external_body]
pub(crate) fn render_titled_block(frame: &mut Frame, borders: u8, title: &str, area: Rect)
    requires
        title@.len() < TITLE_LIMIT,
{
    let block = Block::default().borders(Borders::from_bits_truncate(borders));
    frame.render_widget(block.title(title), area);
}

} // verus!
