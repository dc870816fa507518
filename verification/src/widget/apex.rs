//! The root of the widget tree.

use crate::events::{Answer, Event, StringError};
use crate::trusted::tui::{block_inner, inner_of, render_block, ALL};
use crate::widget::layers::{order_of, Slot};
use crate::widget::relay::was_asked;
use crate::widget::view::{is_step, relayed, rendered, terminals, Element, View};
use crate::widget::{asks, paints, Overlay, Widget};
use ratatui::buffer::Buffer;
use ratatui::layout::Rect;
use ratatui::Frame;
use vstd::prelude::*;

verus! {

/// The elements of the root: the tabs at the bottom, whose exit ends the
/// session, the tunnels above them and, where there is one, the debug
/// widget on top.
pub open spec fn apex_stack<W>(tabs: W, tunnel: W, debug: Option<W>) -> Seq<Element<W>> {
    let base = seq![
        Element { widget: tabs, terminal: true },
        Element { widget: tunnel, terminal: false },
    ];
    match debug {
        Some(debug) => base.push(Element { widget: debug, terminal: false }),
        None => base,
    }
}

/// The failure that an event tells of, if it tells of one: the message of a
/// tunnel that failed.
pub open spec fn alarm_of(event: Event) -> Option<String> {
    match event {
        Event::Tunnel(Err(error)) => Some(error.0),
        _ => None,
    }
}

/// The stack that handles an event: the stack of the root as it is, or,
/// where the event tells of a failure, with a widget for the failure on
/// top, which `Overlay::error` has made of the message and which is not
/// terminal.
pub open spec fn alarmed<W: Overlay>(
    stack: Seq<Element<W>>,
    event: Event,
    before: Seq<Element<W>>,
) -> bool {
    match alarm_of(event) {
        None => before == stack,
        Some(message) => {
            &&& before.len() == stack.len() + 1
            &&& before.drop_last() == stack
            &&& !before.last().terminal
            &&& call_ensures(W::error, (message,), before.last().widget)
        },
    }
}

/// The root of the widget tree: a bordered view that shows all of its
/// layers, and puts every failure of a tunnel in front of them.
pub struct Apex<W> {
    view: View<W>,
}

impl<W> Apex<W> {
    /// The elements of the root, the topmost last.
    pub closed spec fn stack(&self) -> Seq<Element<W>> {
        self.view.stack()
    }

    /// Whether the root draws every layer.
    pub closed spec fn shows_all(&self) -> bool {
        self.view.shows_all()
    }

    /// The root over the given widgets.
    pub fn new(tabs: W, tunnel: W, debug: Option<W>) -> (apex: Apex<W>)
        ensures
            apex.shows_all(),
            apex.stack() == apex_stack(tabs, tunnel, debug),
    {
        let mut widgets: Vec<Element<W>> = Vec::new();
        widgets.push(Element::builder().widget(tabs).terminal(true).build());
        widgets.push(Element::from(tunnel));
        match debug {
            Some(debug) => {
                widgets.push(Element::from(debug));
            },
            None => {},
        }
        Apex { view: View::builder().widgets(widgets).show_all(true).build() }
    }
}

impl<W: Overlay> Widget for Apex<W> {
    type Raw = W::Raw;

    /// Where the event tells of a tunnel that failed, puts a widget with
    /// the failure on top of the stack; then lets the stack handle the event
    /// as a view does.
    fn dispatch(&mut self, event: &Event, buffer: &Buffer, area: Rect) -> (answer: Answer<W::Raw>)
        ensures
            final(self).shows_all() == old(self).shows_all(),
            exists|
                before: Seq<Element<W>>,
                answers: Seq<Answer<W::Raw>>,
                asked: Seq<Element<W>>,
            | #[trigger]
                relayed(before, answers, asked, final(self).stack(), answer) && alarmed(
                    old(self).stack(),
                    *event,
                    before,
                ) && forall|i: int| #[trigger]
                    was_asked(answers, i) ==> exists|widget: &mut W| #[trigger]
                        asks(widget, before[i].widget, *event, *buffer, area, answers[i])
                            && mut_ref_future(widget) == asked[i].widget,
    {
        match event {
            Event::Tunnel(Err(error)) => {
                let overlay = W::error(error.message());
                self.view.push(Element::from(overlay));
            },
            _ => {},
        }
        let ghost before = self.view.stack();
        proof {
            if alarm_of(*event) is Some {
                assert(before.drop_last() == old(self).stack());
            }
            assert(alarmed(old(self).stack(), *event, before));
        }
        let answer = self.view.dispatch(event, buffer, area);
        proof {
            let (answers, asked) = choose|answers: Seq<Answer<W::Raw>>, asked: Seq<Element<W>>|
             #[trigger]
                relayed(before, answers, asked, self.view.stack(), answer) && forall|i: int|
                 #[trigger]
                    was_asked(answers, i) ==> exists|widget: &mut W| #[trigger]
                        asks(widget, before[i].widget, *event, *buffer, area, answers[i])
                            && mut_ref_future(widget) == asked[i].widget;
            assert(relayed(before, answers, asked, self.stack(), answer));
        }
        answer
    }

    /// Draws a border round `area`, and then the stack inside it as a view
    /// draws.
    fn draw(&mut self, frame: &mut Frame, area: Rect) -> (done: Result<(), StringError>)
        ensures
            final(self).shows_all() == old(self).shows_all(),
            terminals(final(self).stack()) == terminals(old(self).stack()),
            exists|
                zs: Seq<u16>,
                plan: Seq<(u16, Seq<usize>)>,
                placed: Seq<Seq<Slot>>,
                stacks: Seq<Seq<Element<W>>>,
                frames: Seq<Frame>,
                results: Seq<Result<(), StringError>>,
            | #[trigger]
                rendered(
                    old(self).stack(),
                    old(self).shows_all(),
                    inner_of(ALL, area),
                    frames[0],
                    zs,
                    plan,
                    placed,
                    stacks,
                    frames,
                    results,
                    final(self).stack(),
                    *final(frame),
                    done,
                ) && forall|j: int| #[trigger]
                    is_step(results, j) ==> exists|widget: &mut W, canvas: &mut Frame| #[trigger]
                        paints(
                            widget,
                            canvas,
                            stacks[j][order_of(placed, old(self).shows_all())[j].1 as int].widget,
                            frames[j],
                            order_of(placed, old(self).shows_all())[j].0,
                            results[j],
                        ) && mut_ref_future(widget) == stacks[j + 1][order_of(
                            placed,
                            old(self).shows_all(),
                        )[j].1 as int].widget && mut_ref_future(canvas) == frames[j + 1],
    {
        let inner = block_inner(ALL, area);
        render_block(frame, ALL, area);
        let ghost bordered = *frame;
        let done = self.view.draw(frame, inner);
        proof {
            let (zs, plan, placed, stacks, frames, results) = choose|
                zs: Seq<u16>,
                plan: Seq<(u16, Seq<usize>)>,
                placed: Seq<Seq<Slot>>,
                stacks: Seq<Seq<Element<W>>>,
                frames: Seq<Frame>,
                results: Seq<Result<(), StringError>>,
            | #[trigger]
                rendered(
                    old(self).view.stack(),
                    old(self).view.shows_all(),
                    inner,
                    bordered,
                    zs,
                    plan,
                    placed,
                    stacks,
                    frames,
                    results,
                    self.view.stack(),
                    *frame,
                    done,
                ) && forall|j: int| #[trigger]
                    is_step(results, j) ==> exists|widget: &mut W, canvas: &mut Frame| #[trigger]
                        paints(
                            widget,
                            canvas,
                            stacks[j][order_of(placed, old(self).view.shows_all())[j].1 as int].widget,
                            frames[j],
                            order_of(placed, old(self).view.shows_all())[j].0,
                            results[j],
                        ) && mut_ref_future(widget) == stacks[j + 1][order_of(
                            placed,
                            old(self).view.shows_all(),
                        )[j].1 as int].widget && mut_ref_future(canvas) == frames[j + 1];
            assert(rendered(
                old(self).stack(),
                old(self).shows_all(),
                inner_of(ALL, area),
                frames[0],
                zs,
                plan,
                placed,
                stacks,
                frames,
                results,
                self.stack(),
                *frame,
                done,
            ));
        }
        done
    }
}

} // verus!
