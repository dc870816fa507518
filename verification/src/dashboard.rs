//! The session of one dashboard: which widget has the terminal, and what the
//! render loop does with each event.
//!
//! The loop itself waits for events, draws and runs raw widgets, none of
//! which happens here. Here is every decision that it takes in between.

use crate::events::{Answer, Broadcast, Event, Keypress, StringError};
use crate::widget::{asks, paints, Widget};
use ratatui::buffer::Buffer;
use ratatui::layout::Rect;
use ratatui::Frame;
use replace_with::replace_with_or_abort;
use vstd::prelude::*;

verus! {

/// Draws per second while the widgets have the terminal.
pub const FPS: u64 = 10;

/// Milliseconds between two draws.
pub const RENDER_INTERVAL: u64 = 1000 / FPS;

/// The last words to the operator when a session ends.
pub const FAREWELL: &'static str = "exiting...";

/// Who has the terminal: the widget tree, or one raw widget that took it
/// over, with the widget tree kept aside until the raw widget is done.
pub enum Mode<W: Widget> {
    UI(W),
    Raw(W::Raw, W),
}

impl<W: Widget> Mode<W> {
    /// The mode after `raw` has taken the terminal: the widget tree is kept,
    /// a raw widget that had the terminal before is dropped.
    pub open spec fn entered(self, raw: W::Raw) -> Mode<W> {
        match self {
            Mode::UI(previous) => Mode::Raw(raw, previous),
            Mode::Raw(_, previous) => Mode::Raw(raw, previous),
        }
    }

    /// The mode after the raw widget is done: the widget tree has the
    /// terminal again. Where it had it already, nothing changes.
    pub open spec fn resumed(self) -> Mode<W> {
        match self {
            Mode::Raw(_, previous) => Mode::UI(previous),
            Mode::UI(current) => Mode::UI(current),
        }
    }

    /// The widget tree, whether it has the terminal or is kept aside.
    pub open spec fn widget(self) -> W {
        match self {
            Mode::Raw(_, previous) => previous,
            Mode::UI(current) => current,
        }
    }

    /// Hands the terminal to `raw`, consuming the mode.
    pub fn enter(self, raw: W::Raw) -> (next: Mode<W>)
        ensures
            next == self.entered(raw),
    {
        match self {
            Mode::UI(previous) => Mode::Raw(raw, previous),
            Mode::Raw(_, previous) => Mode::Raw(raw, previous),
        }
    }

    /// Hands the terminal back to the widget tree, consuming the mode.
    pub fn resume(self) -> (next: Mode<W>)
        ensures
            next == self.resumed(),
    {
        match self {
            Mode::Raw(_, previous) => Mode::UI(previous),
            Mode::UI(current) => Mode::UI(current),
        }
    }

    /// Hands the terminal to `raw`, in place.
    pub fn raw(&mut self, raw: W::Raw)
        ensures
            *final(self) == old(self).entered(raw),
    {
        let enter = |mode: Mode<W>| -> (next: Mode<W>)
            ensures
                next == mode.entered(raw),
            {
                mode.enter(raw)
            };
        replace_with_or_abort(self, enter);
    }

    /// Hands the terminal back to the widget tree, in place.
    pub fn ui(&mut self)
        ensures
            *final(self) == old(self).resumed(),
    {
        let resume = |mode: Mode<W>| -> (next: Mode<W>)
            ensures
                next == mode.resumed(),
            {
                mode.resume()
            };
        replace_with_or_abort(self, resume);
    }
}

/// What the widget tree does with an event while it has the terminal.
#[derive(Clone, Copy, Debug, PartialEq, Eq, Structural)]
pub enum Step {
    /// End the session: the widgets are not asked, nothing is drawn.
    Exit,
    /// Draw: the widgets are not asked.
    Draw,
    /// Ask the widgets, then draw.
    Dispatch,
}

/// What the widget tree does with `event` while it has the terminal:
/// control-C from the transport ends the session, a tick of the timer only
/// draws, and everything else goes to the widgets.
pub open spec fn step_of(event: Event) -> Step {
    match event {
        Event::Input(input) => if input.key == Keypress::EndOfText {
            Step::Exit
        } else {
            Step::Dispatch
        },
        Event::Render => Step::Draw,
        _ => Step::Dispatch,
    }
}

/// What the widget tree does with `event` while it has the terminal.
pub fn route(event: &Event) -> (step: Step)
    ensures
        step == step_of(*event),
{
    match event {
        Event::Input(input) => {
            match input.key {
                Keypress::EndOfText => Step::Exit,
                _ => Step::Dispatch,
            }
        },
        Event::Render => Step::Draw,
        _ => Step::Dispatch,
    }
}

/// An event as the widget tree has handled it: whether a frame is to be
/// drawn now, and the answer that the loop then acts on.
pub struct Handled<R> {
    pub draw: bool,
    pub answer: Answer<R>,
}

/// Handles one event for the widget tree that has the terminal, short of
/// drawing the frame: asks the widget where the event is for the widgets,
/// and says that a frame is to be drawn, whatever the widget answers.
pub fn dispatch_ui<W: Widget>(widget: &mut W, event: &Event, buffer: &Buffer, area: Rect) -> (handled:
    Handled<W::Raw>)
    ensures
        handled.draw == !(step_of(*event) is Exit),
        step_of(*event) is Exit ==> handled.answer matches Ok(Broadcast::Exited),
        step_of(*event) is Draw ==> handled.answer matches Ok(Broadcast::Ignored),
        !(step_of(*event) is Dispatch) ==> *final(widget) == *old(widget),
        step_of(*event) is Dispatch ==> exists|asked: &mut W| #[trigger]
            asks(asked, *old(widget), *event, *buffer, area, handled.answer) && mut_ref_future(
                asked,
            ) == *final(widget),
{
    match route(event) {
        Step::Exit => Handled { draw: false, answer: Ok(Broadcast::Exited) },
        Step::Draw => Handled { draw: true, answer: Ok(Broadcast::Ignored) },
        Step::Dispatch => {
            let answer = widget.dispatch(event, buffer, area);
            proof {
                let asked = choose|asked: &mut W|
                    mut_ref_current(asked) == *old(widget) && mut_ref_future(asked) == *widget
                        && #[trigger] call_ensures(
                        W::dispatch,
                        (asked, event, buffer, area),
                        answer,
                    );
                assert(asks(asked, *old(widget), *event, *buffer, area, answer));
            }
            Handled { draw: true, answer }
        },
    }
}

impl<W: Widget> Mode<W> {
    /// Takes one event of the render loop. While a raw widget has the
    /// terminal, nothing is done with it and `None` says so: the loop runs
    /// the raw widget and reports with `finish`. Else the widget tree
    /// handles the event as `dispatch_ui` says.
    pub fn turn(&mut self, event: &Event, buffer: &Buffer, area: Rect) -> (handled: Option<
        Handled<W::Raw>,
    >)
        ensures
            (*old(self)) is Raw ==> handled is None && *final(self) == *old(self),
            (*old(self)) is UI ==> (*final(self)) is UI && handled is Some,
            (*old(self)) is UI ==> handled->0.draw == !(step_of(*event) is Exit),
            (*old(self)) is UI && step_of(*event) is Exit ==> handled->0.answer matches Ok(
                Broadcast::Exited,
            ),
            (*old(self)) is UI && step_of(*event) is Draw ==> handled->0.answer matches Ok(
                Broadcast::Ignored,
            ),
            !(step_of(*event) is Dispatch) ==> *final(self) == *old(self),
            (*old(self)) is UI && step_of(*event) is Dispatch ==> exists|asked: &mut W| #[trigger]
                asks(asked, old(self).widget(), *event, *buffer, area, handled->0.answer)
                    && mut_ref_future(asked) == final(self).widget(),
    {
        match self {
            Mode::UI(widget) => {
                let ghost before = *widget;
                let handled = dispatch_ui(widget, event, buffer, area);
                proof {
                    if step_of(*event) is Dispatch {
                        let asked = choose|asked: &mut W| #[trigger]
                            asks(asked, before, *event, *buffer, area, handled.answer)
                                && mut_ref_future(asked) == *widget;
                        assert(asks(
                            asked,
                            old(self).widget(),
                            *event,
                            *buffer,
                            area,
                            handled.answer,
                        ));
                    }
                }
                Some(handled)
            },
            Mode::Raw(_, _) => None,
        }
    }

    /// Draws a frame: the widget tree is drawn into `area` of the frame
    /// where it has the terminal, and its failure to draw is the result.
    /// While a raw widget has the terminal nothing is drawn.
    pub fn draw(&mut self, frame: &mut Frame, area: Rect) -> (done: Result<(), StringError>)
        ensures
            (*old(self)) is Raw ==> done is Ok && *final(self) == *old(self) && *final(frame)
                == *old(frame),
            (*old(self)) is UI ==> (*final(self)) is UI && exists|
                widget: &mut W,
                canvas: &mut Frame,
            | #[trigger]
                paints(widget, canvas, old(self).widget(), *old(frame), area, done)
                    && mut_ref_future(widget) == final(self).widget() && mut_ref_future(canvas)
                    == *final(frame),
    {
        match self {
            Mode::UI(current) => {
                let ghost before = *current;
                let done = current.draw(frame, area);
                proof {
                    let (widget, canvas) = choose|widget: &mut W, canvas: &mut Frame|
                        mut_ref_current(widget) == before && mut_ref_future(widget) == *current
                            && mut_ref_current(canvas) == *old(frame) && mut_ref_future(canvas)
                            == *frame && #[trigger] call_ensures(
                            W::draw,
                            (widget, canvas, area),
                            done,
                        );
                    assert(paints(widget, canvas, old(self).widget(), *old(frame), area, done));
                }
                done
            },
            Mode::Raw(_, _) => Ok(()),
        }
    }

    /// Reports that the raw widget is done, with the outcome of its run. The
    /// raw widget is dropped and the widget tree has the terminal again,
    /// whatever the outcome; it is told by a `Finished` event with the
    /// outcome, and its answer to that, or its failure to take it, is the
    /// result.
    ///
    /// While the widget tree has the terminal there is no raw widget to be
    /// done: nothing happens, and the result is `Ignored`.
    pub fn finish(&mut self, outcome: Result<(), StringError>, buffer: &Buffer, area: Rect) -> (answer:
        Answer<W::Raw>)
        ensures
            (*old(self)) is UI ==> *final(self) == *old(self) && answer matches Ok(
                Broadcast::Ignored,
            ),
            (*old(self)) is Raw ==> exists|asked: &mut W| #[trigger]
                asks(asked, old(self).widget(), Event::Finished(outcome), *buffer, area, answer)
                    && *final(self) == Mode::UI(mut_ref_future(asked)),
    {
        let answer = match self {
            Mode::UI(_) => {
                return Ok(Broadcast::Ignored);
            },
            Mode::Raw(_, suspended) => {
                let event = Event::Finished(outcome);
                suspended.dispatch(&event, buffer, area)
            },
        };
        proof {
            let asked = choose|asked: &mut W|
                mut_ref_current(asked) == old(self).widget() && mut_ref_future(asked)
                    == self.widget() && #[trigger] call_ensures(
                    W::dispatch,
                    (asked, &Event::Finished(outcome), buffer, area),
                    answer,
                );
            assert(asks(
                asked,
                old(self).widget(),
                Event::Finished(outcome),
                *buffer,
                area,
                answer,
            ));
        }
        self.ui();
        answer
    }

    /// Acts on the answer of the widget tree: an exit ends the session, a
    /// raw widget gets the terminal, and nothing else changes the mode.
    /// Says whether the session goes on.
    pub fn advance(&mut self, answer: Broadcast<W::Raw>) -> (open: bool)
        ensures
            open == !(answer is Exited),
            answer is Raw ==> *final(self) == old(self).entered(answer->Raw_0),
            !(answer is Raw) ==> *final(self) == *old(self),
    {
        match answer {
            Broadcast::Exited => false,
            Broadcast::Raw(raw) => {
                self.raw(raw);
                true
            },
            _ => true,
        }
    }
}

/// Once the widget tree has the terminal, handing it back again changes
/// nothing: a second signal that a raw widget is done has no effect.
pub proof fn resuming_twice_is_resuming_once<W: Widget>(mode: Mode<W>)
    ensures
        mode.resumed().resumed() == mode.resumed(),
        mode is UI ==> mode.resumed() == mode,
        mode.resumed() is UI,
        mode.resumed().widget() == mode.widget(),
{
}

} // verus!
