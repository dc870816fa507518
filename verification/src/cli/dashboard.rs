//! The dashboard on the operator's own terminal: one task reads the
//! keyboard and the timer, the other draws. Here is what each of them
//! decides.

use crate::events::{Event, Keypress};
use vstd::prelude::*;

verus! {

/// What the reading task does with a key: the event it sends, and whether
/// it reads on.
pub struct Forward {
    pub event: Event,
    pub more: bool,
}

/// What the reading task does with `key`: every key is sent on as a
/// keypress, and control-C and escape are the last one sent.
pub fn forward(key: Keypress) -> (forward: Forward)
    ensures
        forward.event == Event::Keypress(key),
        forward.more == !key.quits(),
{
    Forward { event: Event::Keypress(key), more: !key.is_quit() }
}

/// What the drawing task does with an event.
#[derive(Clone, Copy, Debug, PartialEq, Eq, Structural)]
pub enum Step {
    /// Draw the root widget.
    Draw,
    /// Ask the root widget.
    Dispatch,
    /// End the session.
    Quit,
    /// Nothing.
    Skip,
}

/// What the drawing task does with `event`: a tick of the timer draws,
/// control-C and escape end the session, every other key goes to the root
/// widget, and nothing else matters.
pub open spec fn step_of(event: Event) -> Step {
    match event {
        Event::Render => Step::Draw,
        Event::Keypress(key) => if key.quits() {
            Step::Quit
        } else {
            Step::Dispatch
        },
        _ => Step::Skip,
    }
}

/// What the drawing task does with `event`.
pub fn ui(event: &Event) -> (step: Step)
    ensures
        step == step_of(*event),
{
    match event {
        Event::Render => Step::Draw,
        Event::Keypress(key) => {
            if key.is_quit() {
                Step::Quit
            } else {
                Step::Dispatch
            }
        },
        _ => Step::Skip,
    }
}

} // verus!
