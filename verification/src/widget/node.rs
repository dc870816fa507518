//! A list of resources with its loading screen, and the detail of one of
//! them.

use crate::events::{Answer, Broadcast, Event, Keypress, StringError};
use crate::trusted::sync::try_recv;
use crate::trusted::tui::{block_inner, inner_of, render_titled_block, TITLE_LIMIT, TOP};
use crate::widget::layers::{order_of, Slot};
use crate::widget::relay::was_asked;
use crate::widget::view::{is_step, relayed, rendered, Element, View};
use crate::widget::{asks, paints, Widget};
use ratatui::buffer::Buffer;
use ratatui::layout::Rect;
use ratatui::Frame;
use tokio::sync::oneshot::Receiver;
use vstd::prelude::*;
use vstd::view::View as _;

verus! {

/// What a widget answers that leaves on escape, its content having answered
/// `inner` to an event with the key `key`: whatever the content answers,
/// unless the content ignores the event and the key is escape, which makes
/// the widget exit.
pub open spec fn left_on_escape<R>(
    inner: Answer<R>,
    key: Option<Keypress>,
) -> Answer<R> {
    if inner matches Ok(Broadcast::Ignored) && key == Some(Keypress::Escape) {
        Ok(Broadcast::Exited)
    } else {
        inner
    }
}

/// The answer of a widget that leaves on escape, from the answer of its
/// content to the same event.
pub fn leave_on_escape<R>(inner: Answer<R>, event: &Event) -> (answer:
    Answer<R>)
    ensures
        answer == left_on_escape(inner, event.key_of()),
{
    match inner {
        Ok(Broadcast::Ignored) => {
            match event.key() {
                Some(Keypress::Escape) => Ok(Broadcast::Exited),
                _ => Ok(Broadcast::Ignored),
            }
        },
        other => other,
    }
}

/// The stack of a list as it is drawn: without its topmost element where
/// the signal has arrived, else as it is.
pub open spec fn revealed<W>(stack: Seq<Element<W>>, ready: bool) -> Seq<Element<W>> {
    if ready && stack.len() > 0 {
        stack.drop_last()
    } else {
        stack
    }
}

/// A list of resources: a table, and in front of it a loading screen that
/// is taken away once the first listing has arrived.
#[verifier::reject_recursive_types(W)]
pub struct List<W> {
    view: View<W>,
    is_ready: Receiver<()>,
}

impl<W> List<W> {
    /// The elements of the list, the topmost last.
    pub closed spec fn stack(&self) -> Seq<Element<W>> {
        self.view.stack()
    }

    /// Whether the list draws every layer.
    pub closed spec fn shows_all(&self) -> bool {
        self.view.shows_all()
    }

    /// The list over `table`, with `loading` in front of it until
    /// `is_ready` has its signal. It draws the topmost layer only.
    pub fn new(table: W, loading: W, is_ready: Receiver<()>) -> (list: List<W>)
        ensures
            !list.shows_all(),
            list.stack() == seq![
                Element { widget: table, terminal: false },
                Element { widget: loading, terminal: false },
            ],
    {
        let mut widgets: Vec<Element<W>> = Vec::new();
        widgets.push(Element::from(table));
        widgets.push(Element::from(loading));
        List { view: View::builder().widgets(widgets).build(), is_ready }
    }
}

impl<W: Widget> Widget for List<W> {
    type Raw = W::Raw;

    /// Lets the stack handle the event as a view does; where the stack
    /// ignores an escape, the list exits.
    fn dispatch(&mut self, event: &Event, buffer: &Buffer, area: Rect) -> (answer: Answer<W::Raw>)
        ensures
            final(self).shows_all() == old(self).shows_all(),
            exists|answers: Seq<Answer<W::Raw>>, asked: Seq<Element<W>>, inner: Answer<W::Raw>|
             #[trigger]
                relayed(old(self).stack(), answers, asked, final(self).stack(), inner) && answer
                    == left_on_escape(inner, event.key_of()) && forall|i: int| #[trigger]
                    was_asked(answers, i) ==> exists|widget: &mut W| #[trigger]
                        asks(widget, old(self).stack()[i].widget, *event, *buffer, area, answers[i])
                            && mut_ref_future(widget) == asked[i].widget,
    {
        let inner = self.view.dispatch(event, buffer, area);
        proof {
            let (answers, asked) = choose|answers: Seq<Answer<W::Raw>>, asked: Seq<Element<W>>|
             #[trigger]
                relayed(old(self).view.stack(), answers, asked, self.view.stack(), inner)
                    && forall|i: int| #[trigger]
                    was_asked(answers, i) ==> exists|widget: &mut W| #[trigger]
                        asks(
                            widget,
                            old(self).view.stack()[i].widget,
                            *event,
                            *buffer,
                            area,
                            answers[i],
                        ) && mut_ref_future(widget) == asked[i].widget;
            assert(relayed(old(self).stack(), answers, asked, self.stack(), inner));
        }
        leave_on_escape(inner, event)
    }

    /// Draws the list as `draw_when` does, with whether the signal has
    /// arrived since the last draw.
    fn draw(&mut self, frame: &mut Frame, area: Rect) -> (done: Result<(), StringError>)
        ensures
            final(self).shows_all() == old(self).shows_all(),
            exists|
                ready: bool,
                zs: Seq<u16>,
                plan: Seq<(u16, Seq<usize>)>,
                placed: Seq<Seq<Slot>>,
                stacks: Seq<Seq<Element<W>>>,
                frames: Seq<Frame>,
                results: Seq<Result<(), StringError>>,
            |
                #[trigger] rendered(
                    stacks[0],
                    old(self).shows_all(),
                    area,
                    *old(frame),
                    zs,
                    plan,
                    placed,
                    stacks,
                    frames,
                    results,
                    final(self).stack(),
                    *final(frame),
                    done,
                ) && stacks[0] == #[trigger] revealed(old(self).stack(), ready)
                    && forall|j: int| #[trigger]
                    is_step(results, j) ==> exists|widget: &mut W, canvas: &mut Frame| #[trigger]
                        paints(
                            widget,
                            canvas,
                            stacks[j][order_of(placed, old(self).shows_all())[j].1 as int].widget,
                            frames[j],
                            order_of(placed, old(self).shows_all())[j].0,
                            results[j],
                        ) && mut_ref_future(widget) == stacks[j + 1][order_of(
                            placed,
                            old(self).shows_all(),
                        )[j].1 as int].widget && mut_ref_future(canvas) == frames[j + 1],
    {
        let ready = try_recv(&mut self.is_ready);
        let done = self.draw_when(ready, frame, area);
        proof {
            let (zs, plan, placed, stacks, frames, results) = choose|
                zs: Seq<u16>,
                plan: Seq<(u16, Seq<usize>)>,
                placed: Seq<Seq<Slot>>,
                stacks: Seq<Seq<Element<W>>>,
                frames: Seq<Frame>,
                results: Seq<Result<(), StringError>>,
            | #[trigger]
                rendered(
                    stacks[0],
                    old(self).shows_all(),
                    area,
                    *old(frame),
                    zs,
                    plan,
                    placed,
                    stacks,
                    frames,
                    results,
                    self.stack(),
                    *frame,
                    done,
                ) && stacks[0] == revealed(old(self).stack(), ready)
                    && forall|j: int| #[trigger]
                    is_step(results, j) ==> exists|widget: &mut W, canvas: &mut Frame| #[trigger]
                        paints(
                            widget,
                            canvas,
                            stacks[j][order_of(placed, old(self).shows_all())[j].1 as int].widget,
                            frames[j],
                            order_of(placed, old(self).shows_all())[j].0,
                            results[j],
                        ) && mut_ref_future(widget) == stacks[j + 1][order_of(
                            placed,
                            old(self).shows_all(),
                        )[j].1 as int].widget && mut_ref_future(canvas) == frames[j + 1];
            assert(rendered(
                stacks[0],
                old(self).shows_all(),
                area,
                *old(frame),
                zs,
                plan,
                placed,
                stacks,
                frames,
                results,
                self.stack(),
                *frame,
                done,
            ));
            assert(stacks[0] == revealed(old(self).stack(), ready));
        }
        done
    }
}

impl<W: Widget> List<W> {
    /// Draws the list, `ready` saying whether the signal has arrived since
    /// the last draw: where it has, the topmost element is taken away
    /// first; then the stack is drawn as a view draws.
    pub fn draw_when(&mut self, ready: bool, frame: &mut Frame, area: Rect) -> (done: Result<
        (),
        StringError,
    >)
        ensures
            final(self).shows_all() == old(self).shows_all(),
            exists|
                zs: Seq<u16>,
                plan: Seq<(u16, Seq<usize>)>,
                placed: Seq<Seq<Slot>>,
                stacks: Seq<Seq<Element<W>>>,
                frames: Seq<Frame>,
                results: Seq<Result<(), StringError>>,
            | #[trigger]
                rendered(
                    stacks[0],
                    old(self).shows_all(),
                    area,
                    *old(frame),
                    zs,
                    plan,
                    placed,
                    stacks,
                    frames,
                    results,
                    final(self).stack(),
                    *final(frame),
                    done,
                ) && stacks[0] == revealed(old(self).stack(), ready)
                    && forall|j: int| #[trigger]
                    is_step(results, j) ==> exists|widget: &mut W, canvas: &mut Frame| #[trigger]
                        paints(
                            widget,
                            canvas,
                            stacks[j][order_of(placed, old(self).shows_all())[j].1 as int].widget,
                            frames[j],
                            order_of(placed, old(self).shows_all())[j].0,
                            results[j],
                        ) && mut_ref_future(widget) == stacks[j + 1][order_of(
                            placed,
                            old(self).shows_all(),
                        )[j].1 as int].widget && mut_ref_future(canvas) == frames[j + 1],
    {
        if ready {
            self.view.pop();
        }
        let ghost shown = self.view.stack();
        let done = self.view.draw(frame, area);
        proof {
            let (zs, plan, placed, stacks, frames, results) = choose|
                zs: Seq<u16>,
                plan: Seq<(u16, Seq<usize>)>,
                placed: Seq<Seq<Slot>>,
                stacks: Seq<Seq<Element<W>>>,
                frames: Seq<Frame>,
                results: Seq<Result<(), StringError>>,
            | #[trigger]
                rendered(
                    shown,
                    old(self).view.shows_all(),
                    area,
                    *old(frame),
                    zs,
                    plan,
                    placed,
                    stacks,
                    frames,
                    results,
                    self.view.stack(),
                    *frame,
                    done,
                ) && forall|j: int| #[trigger]
                    is_step(results, j) ==> exists|widget: &mut W, canvas: &mut Frame| #[trigger]
                        paints(
                            widget,
                            canvas,
                            stacks[j][order_of(placed, old(self).view.shows_all())[j].1 as int].widget,
                            frames[j],
                            order_of(placed, old(self).view.shows_all())[j].0,
                            results[j],
                        ) && mut_ref_future(widget) == stacks[j + 1][order_of(
                            placed,
                            old(self).view.shows_all(),
                        )[j].1 as int].widget && mut_ref_future(canvas) == frames[j + 1];
            assert(rendered(
                stacks[0],
                old(self).shows_all(),
                area,
                *old(frame),
                zs,
                plan,
                placed,
                stacks,
                frames,
                results,
                self.stack(),
                *frame,
                done,
            ));
            assert(stacks[0] == revealed(old(self).stack(), ready));
        }
        done
    }
}

/// The detail of one resource: its content under a line with its name.
pub struct Detail<W> {
    name: String,
    view: W,
}

/// What the line above the content of a detail says: the name of the
/// resource, or the start of it where it is longer than the title of a
/// block can be.
pub open spec fn title_of(name: Seq<char>) -> Seq<char> {
    if name.len() < TITLE_LIMIT {
        name
    } else {
        name.subrange(0, TITLE_LIMIT - 1)
    }
}

/// What is said where the resource to show is not there any more.
pub const NOT_FOUND: &'static str = "node not found";

impl<W> Detail<W> {
    /// The name of the resource.
    pub closed spec fn name(&self) -> Seq<char> {
        self.name@
    }

    /// The content of the detail.
    pub closed spec fn content(&self) -> W {
        self.view
    }

    /// The line above the content: the name of the resource, cut to what
    /// the title of a block can take.
    pub fn title(&self) -> (title: &str)
        ensures
            title@ == title_of(self.name()),
    {
        let name = self.name.as_str();
        if name.unicode_len() < TITLE_LIMIT {
            name
        } else {
            name.substring_char(0, TITLE_LIMIT - 1)
        }
    }

    /// The detail of the resource called `name`, showing `view`.
    pub fn new(name: String, view: W) -> (detail: Detail<W>)
        ensures
            detail.name() == name@,
            detail.content() == view,
    {
        Detail { name, view }
    }

    /// The detail of the resource that a lookup in the store has found, or
    /// the failure to tell the operator of where it has found none.
    pub fn from_store(found: Option<(String, W)>) -> (detail: Result<Detail<W>, StringError>)
        ensures
            match found {
                Some((name, view)) => detail is Ok && detail->Ok_0.name() == name@
                    && detail->Ok_0.content() == view,
                None => detail is Err && detail->Err_0.0@ == NOT_FOUND@,
            },
    {
        match found {
            Some((name, view)) => Ok(Detail::new(name, view)),
            None => Err(StringError(NOT_FOUND.to_owned())),
        }
    }
}

impl<W: Widget> Widget for Detail<W> {
    type Raw = W::Raw;

    /// Lets the content handle the event; where the content ignores an
    /// escape, the detail exits.
    fn dispatch(&mut self, event: &Event, buffer: &Buffer, area: Rect) -> (answer: Answer<W::Raw>)
        ensures
            final(self).name() == old(self).name(),
            exists|widget: &mut W, inner: Answer<W::Raw>| #[trigger]
                asks(widget, old(self).content(), *event, *buffer, area, inner) && mut_ref_future(
                    widget,
                ) == final(self).content() && answer == left_on_escape(inner, event.key_of()),
    {
        let inner = self.view.dispatch(event, buffer, area);
        proof {
            let widget = choose|widget: &mut W|
                mut_ref_current(widget) == old(self).view && mut_ref_future(widget) == self.view
                    && #[trigger] call_ensures(
                    W::dispatch,
                    (widget, event, buffer, area),
                    inner,
                );
            assert(asks(widget, old(self).content(), *event, *buffer, area, inner));
        }
        leave_on_escape(inner, event)
    }

    /// Draws a line with the title along the top of `area`, and the content
    /// in what is left below it.
    fn draw(&mut self, frame: &mut Frame, area: Rect) -> (done: Result<(), StringError>)
        ensures
            final(self).name() == old(self).name(),
            exists|widget: &mut W, canvas: &mut Frame| #[trigger]
                paints(
                    widget,
                    canvas,
                    old(self).content(),
                    mut_ref_current(canvas),
                    inner_of(TOP, area),
                    done,
                ) && mut_ref_future(widget) == final(self).content() && mut_ref_future(canvas)
                    == *final(frame),
    {
        let inner = block_inner(TOP, area);
        render_titled_block(frame, TOP, self.title(), area);
        let ghost titled = *frame;
        let done = self.view.draw(frame, inner);
        proof {
            let (widget, canvas) = choose|widget: &mut W, canvas: &mut Frame|
                mut_ref_current(widget) == old(self).view && mut_ref_future(widget) == self.view
                    && mut_ref_current(canvas) == titled && mut_ref_future(canvas) == *frame
                    && #[trigger] call_ensures(W::draw, (widget, canvas, inner), done);
            assert(paints(widget, canvas, old(self).content(), titled, inner_of(TOP, area), done));
        }
        done
    }

    /// A detail lies one layer above the list it was opened from.
    fn zindex(&self) -> (z: u16)
        ensures
            z == 1,
    {
        1
    }
}

} // verus!
