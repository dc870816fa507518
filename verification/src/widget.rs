//! The capability that every participant of the widget tree has.

pub mod apex;
pub mod layers;
pub mod node;
pub mod relay;
pub mod view;

use crate::events::{Answer, Event, StringError};
use ratatui::buffer::Buffer;
use ratatui::layout::{Constraint, Rect};
use ratatui::Frame;
use vstd::prelude::*;

verus! {

/// How a widget wants to be sized among the widgets of its layer.
#[derive(Clone, Copy, Debug)]
pub struct Placement {
    pub horizontal: Constraint,
    pub vertical: Constraint,
}

impl Default for Placement {
    /// Take a share of whatever room there is.
    fn default() -> (placement: Placement)
        ensures
            placement.horizontal == Constraint::Fill(0),
            placement.vertical == Constraint::Fill(0),
    {
        Placement { horizontal: Constraint::Fill(0), vertical: Constraint::Fill(0) }
    }
}

/// A unit of interactive, drawable state.
///
/// Nothing is promised of an implementation. Whoever calls these methods
/// says, with `asks` and `paints`, which calls it made, and what it does
/// with whatever they return.
pub trait Widget {
    /// The kind of raw widget that a dispatch may ask the session to run.
    type Raw;

    /// Reacts to an event, or ignores it. May change the widget; does not
    /// draw.
    fn dispatch(&mut self, event: &Event, buffer: &Buffer, area: Rect) -> Answer<Self::Raw>;

    /// Renders the widget into `area` of the frame.
    fn draw(&mut self, frame: &mut Frame, area: Rect) -> Result<(), StringError>;

    /// How the widget wants to be sized among the widgets of its layer.
    /// Unless a widget says otherwise, it takes a share of whatever room
    /// there is.
    fn placement(&self) -> (placement: Placement)
        default_ensures
            placement.horizontal == Constraint::Fill(0),
            placement.vertical == Constraint::Fill(0),
    {
        Placement::default()
    }

    /// The layer of the widget: higher layers are drawn later, on top.
    /// Unless a widget says otherwise, it lies in the lowest layer.
    fn zindex(&self) -> (z: u16)
        default_ensures
            z == 0,
    {
        0
    }
}

/// `answer` is what came of asking a widget that was `before`: `dispatch`
/// was called through `widget` with this event, this buffer and this area,
/// and returned `answer`. What the widget is after the call is the future
/// of `widget`.
pub open spec fn asks<W: Widget>(
    widget: &mut W,
    before: W,
    event: Event,
    buffer: Buffer,
    area: Rect,
    answer: Answer<W::Raw>,
) -> bool {
    mut_ref_current(widget) == before && call_ensures(
        W::dispatch,
        (widget, &event, &buffer, area),
        answer,
    )
}

/// `done` is what came of drawing a widget that was `before` on a frame
/// that was `canvas`: `draw` was called through `widget` and `frame` with
/// this area, and returned `done`. What the widget and the frame are after
/// the call are the futures of `widget` and `frame`.
pub open spec fn paints<'a, W: Widget>(
    widget: &mut W,
    frame: &mut Frame<'a>,
    before: W,
    canvas: Frame<'a>,
    area: Rect,
    done: Result<(), StringError>,
) -> bool {
    mut_ref_current(widget) == before && mut_ref_current(frame) == canvas && call_ensures(
        W::draw,
        (widget, frame, area),
        done,
    )
}

/// A family of widgets that has a widget for telling the operator of a
/// failure.
pub trait Overlay: Widget + Sized {
    /// A widget that shows `message` in front of everything else.
    fn error(message: String) -> Self;
}

/// A widget of any kind, owned. It is a widget itself, and does what the
/// widget in the box does.
pub type BoxWidget<R> = Box<dyn Widget<Raw = R>>;

impl<W: Widget + ?Sized> Widget for Box<W> {
    type Raw = W::Raw;

    /// Asks the widget in the box: `dispatch` of the widget is called with
    /// this event, this buffer and this area, on the widget as it is in the
    /// box; what it returns is the answer, and what the widget then is, is
    /// what the box then holds.
    fn dispatch(&mut self, event: &Event, buffer: &Buffer, area: Rect) -> (answer: Answer<W::Raw>)
        ensures
            exists|widget: &mut W| #[trigger]
                call_ensures(W::dispatch, (widget, event, buffer, area), answer) && &*widget
                    == &**old(self) && &*final(widget) == &**final(self),
    {
        let widget: &mut W = &mut **self;
        widget.dispatch(event, buffer, area)
    }

    /// Draws the widget in the box: `draw` of the widget is called with this
    /// frame and this area, on the widget as it is in the box; what it
    /// returns is the result, and what the widget and the frame then are, is
    /// what the box then holds and what the frame then is.
    fn draw(&mut self, frame: &mut Frame, area: Rect) -> (done: Result<(), StringError>)
        ensures
            exists|widget: &mut W, canvas: &mut Frame| #[trigger]
                call_ensures(W::draw, (widget, canvas, area), done) && &*widget == &**old(self)
                    && &*final(widget) == &**final(self) && mut_ref_current(canvas) == *old(frame)
                    && mut_ref_future(canvas) == *final(frame),
    {
        let widget: &mut W = &mut **self;
        widget.draw(frame, area)
    }

    /// The placement that the widget in the box gives.
    fn placement(&self) -> (placement: Placement)
        ensures
            call_ensures(W::placement, (&**self,), placement),
    {
        (**self).placement()
    }

    /// The z-index that the widget in the box gives.
    fn zindex(&self) -> (z: u16)
        ensures
            call_ensures(W::zindex, (&**self,), z),
    {
        (**self).zindex()
    }
}

} // verus!
