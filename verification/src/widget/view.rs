//! A stack of widgets that share one area: events go to the topmost widget
//! first, and drawing goes layer by layer.

use crate::events::{Answer, Broadcast, Event, StringError};
use crate::trusted::tui::is_stacked;
use crate::widget::layers::{
    are_layers, areas_of, arrange, drawing_order, in_order, is_run, layer_views, order_of, places,
    shown, shown_of, slot_views, stack_vertically, Slot,
};
use crate::widget::relay::{
    claimant, lemma_claimant_skips_ignored, lemma_relay_skips_ignored, relay, removes, verdict,
    was_asked,
};
use crate::widget::{asks, paints, Placement, Widget};
use ratatui::buffer::Buffer;
use ratatui::layout::{Constraint, Rect};
use ratatui::Frame;
use std::marker::PhantomData;
use vstd::prelude::*;
use vstd::std_specs::convert::FromSpecImpl;
use vstd::view::View as _;

verus! {

/// One widget of a view. From a `terminal` element an exit ends the whole
/// session; from any other it only removes the element.
pub struct Element<W> {
    pub widget: W,
    pub terminal: bool,
}

impl<W: Widget> Widget for Element<W> {
    type Raw = W::Raw;

    fn dispatch(&mut self, event: &Event, buffer: &Buffer, area: Rect) -> (answer: Answer<W::Raw>)
        ensures
            final(self).terminal == old(self).terminal,
            exists|widget: &mut W| #[trigger]
                asks(widget, old(self).widget, *event, *buffer, area, answer) && mut_ref_future(
                    widget,
                ) == final(self).widget,
    {
        let answer = self.widget.dispatch(event, buffer, area);
        proof {
            let widget = choose|widget: &mut W|
                mut_ref_current(widget) == old(self).widget && mut_ref_future(widget)
                    == self.widget && #[trigger] call_ensures(
                    W::dispatch,
                    (widget, event, buffer, area),
                    answer,
                );
            assert(asks(widget, old(self).widget, *event, *buffer, area, answer));
        }
        answer
    }

    fn draw(&mut self, frame: &mut Frame, area: Rect) -> (done: Result<(), StringError>)
        ensures
            final(self).terminal == old(self).terminal,
            exists|widget: &mut W, canvas: &mut Frame| #[trigger]
                paints(widget, canvas, old(self).widget, *old(frame), area, done)
                    && mut_ref_future(widget) == final(self).widget && mut_ref_future(canvas)
                    == *final(frame),
    {
        let done = self.widget.draw(frame, area);
        proof {
            let (widget, canvas) = choose|widget: &mut W, canvas: &mut Frame|
                mut_ref_current(widget) == old(self).widget && mut_ref_future(widget)
                    == self.widget && mut_ref_current(canvas) == *old(frame) && mut_ref_future(
                    canvas,
                ) == *frame && #[trigger] call_ensures(W::draw, (widget, canvas, area), done);
            assert(paints(widget, canvas, old(self).widget, *old(frame), area, done));
        }
        done
    }

    fn placement(&self) -> (placement: Placement)
        ensures
            call_ensures(W::placement, (&self.widget,), placement),
    {
        self.widget.placement()
    }

    fn zindex(&self) -> (z: u16)
        ensures
            call_ensures(W::zindex, (&self.widget,), z),
    {
        self.widget.zindex()
    }
}

impl<W> From<W> for Element<W> {
    /// The widget as an element that is not terminal.
    fn from(widget: W) -> (element: Element<W>) {
        Element { widget, terminal: false }
    }
}

impl<W> FromSpecImpl<W> for Element<W> {
    open spec fn obeys_from_spec() -> bool {
        true
    }

    open spec fn from_spec(widget: W) -> Element<W> {
        Element { widget, terminal: false }
    }
}

/// An element in the making, its widget still to be given.
pub struct ElementBuilder<W> {
    terminal: bool,
    widget: PhantomData<W>,
}

/// An element in the making, its widget given.
pub struct ElementReady<W> {
    terminal: bool,
    widget: W,
}

impl<W> Element<W> {
    /// Starts an element. It is not terminal unless the builder is told so.
    pub fn builder() -> (builder: ElementBuilder<W>)
        ensures
            !builder.is_terminal(),
    {
        ElementBuilder { terminal: false, widget: PhantomData }
    }
}

impl<W> ElementBuilder<W> {
    /// Whether the element will be terminal.
    pub closed spec fn is_terminal(&self) -> bool {
        self.terminal
    }

    /// Says whether the element is terminal.
    pub fn terminal(self, terminal: bool) -> (builder: ElementBuilder<W>)
        ensures
            builder.is_terminal() == terminal,
    {
        ElementBuilder { terminal, widget: PhantomData }
    }

    /// Gives the element its widget.
    pub fn widget(self, widget: W) -> (builder: ElementReady<W>)
        ensures
            builder.element() == (Element { widget, terminal: self.is_terminal() }),
    {
        ElementReady { terminal: self.terminal, widget }
    }
}

impl<W> ElementReady<W> {
    /// The element that `build` will give.
    pub closed spec fn element(&self) -> Element<W> {
        Element { widget: self.widget, terminal: self.terminal }
    }

    /// Says whether the element is terminal.
    pub fn terminal(self, terminal: bool) -> (builder: ElementReady<W>)
        ensures
            builder.element() == (Element { widget: self.element().widget, terminal }),
    {
        ElementReady { terminal, widget: self.widget }
    }

    /// The element.
    pub fn build(self) -> (element: Element<W>)
        ensures
            element == self.element(),
    {
        Element { widget: self.widget, terminal: self.terminal }
    }
}

/// The element at `i` is one of those from `at` up.
spec fn is_reached(at: int, i: int, len: int) -> bool {
    at <= i < len
}

/// One dispatch took the view from `before` to `after` and returned
/// `answer`. The elements from the claimant up were asked, answered
/// `answers` and are then as in `asked`; those below the claimant are as
/// they were; no element has changed its terminal flag; and only the
/// claimant can have left, where its answer removes it.
pub open spec fn relayed<W, R>(
    before: Seq<Element<W>>,
    answers: Seq<Answer<R>>,
    asked: Seq<Element<W>>,
    after: Seq<Element<W>>,
    answer: Answer<R>,
) -> bool {
    &&& answers.len() == before.len()
    &&& asked.len() == before.len()
    &&& terminals(asked) == terminals(before)
    &&& forall|i: int| 0 <= i < claimant(answers) ==> #[trigger] asked[i] == before[i]
    &&& (terminals(after), answer) == relay(terminals(before), answers)
    &&& after == if claimant(answers) >= 0 && removes(
        before[claimant(answers)].terminal,
        answers[claimant(answers)],
    ) {
        asked.remove(claimant(answers))
    } else {
        asked
    }
}

/// `after` is `before` but for the widget at `at`, which may have changed.
pub open spec fn differs_at<W>(before: Seq<Element<W>>, at: int, after: Seq<Element<W>>) -> bool {
    &&& 0 <= at < before.len()
    &&& after.len() == before.len()
    &&& after[at].terminal == before[at].terminal
    &&& forall|i: int| 0 <= i < before.len() && i != at ==> #[trigger] after[i] == before[i]
}

/// Draw `j` is one of those that were made.
pub open spec fn is_step(results: Seq<Result<(), StringError>>, j: int) -> bool {
    0 <= j < results.len()
}

/// The widgets of `order` were drawn one after another, each in its area,
/// until one failed or all were drawn. `results[j]` is what draw `j`
/// returned, `stacks[j]` and `frames[j]` are the stack and the frame before
/// it, and the last of each are those after the last draw. Every draw
/// changes only the widget that is drawn, and the frame. Where `done` is a
/// failure, it is that of the last draw; where it is success, every widget
/// of `order` was drawn and none failed.
pub open spec fn painted<'a, W>(
    before: Seq<Element<W>>,
    canvas: Frame<'a>,
    order: Seq<Slot>,
    stacks: Seq<Seq<Element<W>>>,
    frames: Seq<Frame<'a>>,
    results: Seq<Result<(), StringError>>,
    after: Seq<Element<W>>,
    drawn: Frame<'a>,
    done: Result<(), StringError>,
) -> bool {
    &&& results.len() <= order.len()
    &&& stacks.len() == results.len() + 1
    &&& frames.len() == results.len() + 1
    &&& stacks[0] == before
    &&& stacks.last() == after
    &&& frames[0] == canvas
    &&& frames.last() == drawn
    &&& forall|j: int| 0 <= j < results.len() - 1 ==> (#[trigger] results[j]) is Ok
    &&& forall|j: int|
        0 <= j < results.len() ==> differs_at(
            #[trigger] stacks[j],
            order[j].1 as int,
            stacks[j + 1],
        )
    &&& match done {
        Ok(_) => results.len() == order.len() && (results.len() > 0 ==> results.last() is Ok),
        Err(_) => results.len() > 0 && results.last() == done,
    }
}

/// `constraint` is the vertical constraint that `widget` gives for itself.
pub open spec fn is_height_of<W: Widget>(widget: W, constraint: Constraint) -> bool {
    exists|placement: Placement| #[trigger]
        call_ensures(W::placement, (&widget,), placement) && constraint == placement.vertical
}

/// `constraints` are the vertical constraints that the widgets at `members`
/// give, each for itself.
pub open spec fn are_heights<W: Widget>(
    stack: Seq<Element<W>>,
    members: Seq<usize>,
    constraints: Seq<Constraint>,
) -> bool {
    &&& constraints.len() == members.len()
    &&& forall|k: int|
        0 <= k < members.len() ==> #[trigger] is_height_of(
            stack[members[k] as int].widget,
            constraints[k],
        )
}

/// `slots` is what stacking the widgets at `members` in `area` has given:
/// `stack_vertically` was called with the vertical constraints that these
/// widgets give and with `area`, and the areas that it returned are those
/// of `slots`, widget for widget.
pub open spec fn is_laid_out<W: Widget>(
    stack: Seq<Element<W>>,
    members: Seq<usize>,
    slots: Seq<Slot>,
    area: Rect,
) -> bool {
    exists|constraints: Vec<Constraint>, areas: Vec<Rect>|
        are_heights(stack, members, constraints@) && #[trigger] call_ensures(
            stack_vertically,
            (constraints, area),
            areas,
        ) && slots.len() == members.len() && areas@.len() == members.len() && forall|k: int|
            0 <= k < members.len() ==> (#[trigger] slots[k]) == (areas@[k], members[k])
}

/// `placed` is what the layout has made of the layers `plan` of `stack` in
/// `area`: every layer was stacked in the whole of `area` on its own, from
/// the placements of its widgets.
pub open spec fn laid_out<W: Widget>(
    stack: Seq<Element<W>>,
    plan: Seq<(u16, Seq<usize>)>,
    placed: Seq<Seq<Slot>>,
    area: Rect,
) -> bool {
    &&& places(plan, placed, area)
    &&& forall|l: int|
        0 <= l < plan.len() ==> is_laid_out(stack, plan[l].1, #[trigger] placed[l], area)
}

/// One draw of a view in `area`: the widgets gave the z-indices `zs`, which
/// makes the layers `plan`; `placed` gives every widget of every layer its
/// area; and the widgets that the view shows were drawn in their order, as
/// `painted` says.
pub open spec fn rendered<'a, W: Widget>(
    before: Seq<Element<W>>,
    show_all: bool,
    area: Rect,
    canvas: Frame<'a>,
    zs: Seq<u16>,
    plan: Seq<(u16, Seq<usize>)>,
    placed: Seq<Seq<Slot>>,
    stacks: Seq<Seq<Element<W>>>,
    frames: Seq<Frame<'a>>,
    results: Seq<Result<(), StringError>>,
    after: Seq<Element<W>>,
    drawn: Frame<'a>,
    done: Result<(), StringError>,
) -> bool {
    &&& are_zindexes(before, zs)
    &&& are_layers(zs, plan)
    &&& laid_out(before, plan, placed, area)
    &&& painted(
        before,
        canvas,
        order_of(placed, show_all),
        stacks,
        frames,
        results,
        after,
        drawn,
        done,
    )
}

/// `zs` are z-indices that the widgets of `stack` give, each for itself.
/// What `zindex` promises of a kind of widget holds of them.
pub open spec fn are_zindexes<W: Widget>(stack: Seq<Element<W>>, zs: Seq<u16>) -> bool {
    &&& zs.len() == stack.len()
    &&& forall|i: int|
        0 <= i < stack.len() ==> call_ensures(W::zindex, (&(#[trigger] stack[i]).widget,), zs[i])
}

/// The terminal flags of a stack of elements.
pub open spec fn terminals<W>(stack: Seq<Element<W>>) -> Seq<bool> {
    stack.map_values(|element: Element<W>| element.terminal)
}

/// A stack of widgets, the topmost last.
pub struct View<W> {
    widgets: Vec<Element<W>>,
    show_all: bool,
}

/// A view in the making: empty and showing only its topmost layer, unless
/// it is told otherwise.
pub struct ViewBuilder<W> {
    widgets: Vec<Element<W>>,
    show_all: bool,
}

impl<W> ViewBuilder<W> {
    /// The view that `build` will give: its elements, and whether it shows
    /// all layers.
    pub closed spec fn plan(&self) -> (Seq<Element<W>>, bool) {
        (self.widgets@, self.show_all)
    }

    /// Gives the view its elements, the topmost last.
    pub fn widgets(self, widgets: Vec<Element<W>>) -> (builder: ViewBuilder<W>)
        ensures
            builder.plan() == (widgets@, self.plan().1),
    {
        ViewBuilder { widgets, show_all: self.show_all }
    }

    /// Says whether the view draws every layer, or only the topmost.
    pub fn show_all(self, show_all: bool) -> (builder: ViewBuilder<W>)
        ensures
            builder.plan() == (self.plan().0, show_all),
    {
        ViewBuilder { widgets: self.widgets, show_all }
    }

    /// The view.
    pub fn build(self) -> (view: View<W>)
        ensures
            view.stack() == self.plan().0,
            view.shows_all() == self.plan().1,
    {
        View { widgets: self.widgets, show_all: self.show_all }
    }
}

impl<W> View<W> {
    /// Starts a view.
    pub fn builder() -> (builder: ViewBuilder<W>)
        ensures
            builder.plan() == (Seq::<Element<W>>::empty(), false),
    {
        ViewBuilder { widgets: Vec::new(), show_all: false }
    }

    /// The elements of the view, the topmost last.
    pub closed spec fn stack(&self) -> Seq<Element<W>> {
        self.widgets@
    }

    /// Whether the view draws every layer, or only the topmost.
    pub closed spec fn shows_all(&self) -> bool {
        self.show_all
    }

    /// The number of elements in the view.
    pub fn len(&self) -> (len: usize)
        ensures
            len == self.stack().len(),
    {
        self.widgets.len()
    }

    /// Puts an element on top of the stack.
    pub fn push(&mut self, widget: Element<W>)
        ensures
            final(self).stack() == old(self).stack().push(widget),
            final(self).shows_all() == old(self).shows_all(),
    {
        self.widgets.push(widget);
    }

    /// Takes the topmost element off the stack and hands out its widget.
    pub fn pop(&mut self) -> (top: Option<W>)
        ensures
            final(self).shows_all() == old(self).shows_all(),
            old(self).stack().len() == 0 ==> top is None && final(self).stack() == old(
                self,
            ).stack(),
            old(self).stack().len() > 0 ==> top == Some(old(self).stack().last().widget),
            old(self).stack().len() > 0 ==> final(self).stack() == old(self).stack().drop_last(),
    {
        let popped = self.widgets.pop();
        match popped {
            Some(element) => Some(element.widget),
            None => None,
        }
    }

}

impl<W: Widget> View<W> {
    /// The z-index of every element, from the bottom of the stack up.
    fn zindexes(&self) -> (zs: Vec<u16>)
        ensures
            are_zindexes(self.stack(), zs@),
    {
        let mut zs: Vec<u16> = Vec::new();
        let mut at: usize = 0;
        while at < self.widgets.len()
            invariant
                at <= self.widgets@.len(),
                zs@.len() == at,
                forall|i: int|
                    0 <= i < at ==> call_ensures(
                        W::zindex,
                        (&(#[trigger] self.widgets@[i]).widget,),
                        zs@[i],
                    ),
            decreases self.widgets@.len() - at,
        {
            zs.push(self.widgets[at].widget.zindex());
            at += 1;
        }
        zs
    }

    /// The vertical constraint of each of the elements at `members`, as
    /// its widget gives it.
    fn constraints(&self, members: &Vec<usize>) -> (constraints: Vec<Constraint>)
        requires
            forall|k: int| 0 <= k < members@.len() ==> members@[k] < self.stack().len(),
        ensures
            are_heights(self.stack(), members@, constraints@),
    {
        let mut constraints: Vec<Constraint> = Vec::new();
        let mut k: usize = 0;
        while k < members.len()
            invariant
                k <= members@.len(),
                constraints@.len() == k,
                forall|k: int| 0 <= k < members@.len() ==> members@[k] < self.widgets@.len(),
                forall|i: int|
                    0 <= i < k ==> #[trigger] is_height_of(
                        self.widgets@[members@[i] as int].widget,
                        constraints@[i],
                    ),
            decreases members@.len() - k,
        {
            let placement = self.widgets[members[k]].widget.placement();
            constraints.push(placement.vertical);
            proof {
                assert(is_height_of(
                    self.widgets@[members@[k as int] as int].widget,
                    constraints@[k as int],
                ));
            }
            k += 1;
        }
        constraints
    }

    /// The layers of the view in drawing order, each widget with the area
    /// that it gets when the widgets of its layer are stacked in `area`.
    ///
    /// The z-indices and the placements are those that the widgets give
    /// when they are asked. For those, the result is the layering of the
    /// stack, and every layer is laid out in the whole of `area` on its own.
    pub fn layers(&self, area: Rect) -> (placed: Vec<Vec<Slot>>)
        ensures
            exists|zs: Seq<u16>, plan: Seq<(u16, Seq<usize>)>|
                are_zindexes(self.stack(), zs) && #[trigger] are_layers(zs, plan) && laid_out(
                    self.stack(),
                    plan,
                    slot_views(placed@),
                    area,
                ),
    {
        let zs = self.zindexes();
        let plan = arrange(&zs);
        let mut placed: Vec<Vec<Slot>> = Vec::new();
        let mut l: usize = 0;
        while l < plan.len()
            invariant
                l <= plan@.len(),
                placed@.len() == l,
                are_zindexes(self.widgets@, zs@),
                are_layers(zs@, layer_views(plan@)),
                forall|i: int| 0 <= i < l ==> (#[trigger] placed@[i])@.len() == plan@[i].1@.len(),
                forall|i: int, k: int|
                    0 <= i < l && 0 <= k < plan@[i].1@.len() ==> (#[trigger] placed@[i]@[k]).1
                        == plan@[i].1@[k],
                forall|i: int|
                    0 <= i < l ==> is_stacked(area, areas_of((#[trigger] placed@[i])@))
                        && is_laid_out(self.widgets@, plan@[i].1@, placed@[i]@, area),
            decreases plan@.len() - l,
        {
            let members = &plan[l].1;
            proof {
                let layer = layer_views(plan@)[l as int];
                assert(is_run(zs@, layer));
                assert forall|k: int| 0 <= k < members@.len() implies members@[k]
                    < self.stack().len() by {
                    assert(layer.1[k] == layer.1[0] + k);
                }
            }
            let constraints = self.constraints(members);
            let ghost heights = constraints;
            let areas = stack_vertically(constraints, area);
            let mut slots: Vec<Slot> = Vec::new();
            let mut k: usize = 0;
            while k < members.len()
                invariant
                    k <= members@.len(),
                    areas@.len() == members@.len(),
                    slots@.len() == k,
                    forall|i: int|
                        0 <= i < k ==> (#[trigger] slots@[i]) == (areas@[i], members@[i]),
                decreases members@.len() - k,
            {
                let slot = (areas[k], members[k]);
                slots.push(slot);
                k += 1;
            }
            proof {
                assert(areas_of(slots@) =~= areas@);
                assert(call_ensures(stack_vertically, (heights, area), areas));
                assert(is_laid_out(self.widgets@, members@, slots@, area));
            }
            placed.push(slots);
            l += 1;
        }
        proof {
            let planned = layer_views(plan@);
            let laid = slot_views(placed@);
            assert forall|l: int| 0 <= l < planned.len() implies is_stacked(
                area,
                areas_of(#[trigger] laid[l]),
            ) && is_laid_out(self.stack(), planned[l].1, laid[l], area) by {
                assert(laid[l] == placed@[l]@);
                assert(planned[l].1 == plan@[l].1@);
            }
            assert(places(planned, laid, area));
            assert(laid_out(self.stack(), planned, laid, area));
        }
        placed
    }
}

impl<W> View<W> {
    /// Acts on the answer that the element at `at` gave to an event: removes
    /// the element where it exited and is not terminal, and says what the
    /// view's own dispatch returns, if the answer settles that.
    pub fn settle<R>(&mut self, at: usize, answer: Answer<R>) -> (settled:
        Option<Answer<R>>)
        requires
            at < old(self).stack().len(),
        ensures
            final(self).shows_all() == old(self).shows_all(),
            settled == verdict(old(self).stack()[at as int].terminal, answer),
            final(self).stack() == if removes(old(self).stack()[at as int].terminal, answer) {
                old(self).stack().remove(at as int)
            } else {
                old(self).stack()
            },
    {
        match answer {
            Ok(Broadcast::Ignored) => None,
            Ok(Broadcast::Exited) => {
                if self.widgets[at].terminal {
                    Some(Ok(Broadcast::Exited))
                } else {
                    self.widgets.remove(at);
                    Some(Ok(Broadcast::Ignored))
                }
            },
            other => Some(other),
        }
    }
}

impl<W: Widget> Widget for View<W> {
    type Raw = W::Raw;

    /// Asks the elements from the top down until one does not ignore the
    /// event. Its answer is the view's answer, with one exception: the exit
    /// of an element that is not terminal removes that element, and the view
    /// answers `Ignored`. A failure of an element is the view's failure.
    fn dispatch(&mut self, event: &Event, buffer: &Buffer, area: Rect) -> (answer: Answer<W::Raw>)
        ensures
            final(self).shows_all() == old(self).shows_all(),
            exists|answers: Seq<Answer<W::Raw>>, asked: Seq<Element<W>>| #[trigger]
                relayed(old(self).stack(), answers, asked, final(self).stack(), answer) && forall|
                    i: int,
                | #[trigger]
                    was_asked(answers, i) ==> exists|widget: &mut W| #[trigger]
                        asks(widget, old(self).stack()[i].widget, *event, *buffer, area, answers[i])
                            && mut_ref_future(widget) == asked[i].widget,
    {
        let mut at = self.widgets.len();
        let ghost mut answers: Seq<Answer<W::Raw>> = Seq::new(
            self.widgets@.len(),
            |i: int| Ok(Broadcast::Ignored),
        );
        while at > 0
            invariant
                at <= self.widgets@.len(),
                self.show_all == old(self).show_all,
                self.widgets@.len() == old(self).widgets@.len(),
                answers.len() == self.widgets@.len(),
                terminals(self.widgets@) == terminals(old(self).widgets@),
                forall|i: int| 0 <= i < at ==> self.widgets@[i] == old(self).widgets@[i],
                forall|i: int|
                    at <= i < answers.len() ==> (#[trigger] answers[i]) matches Ok(
                        Broadcast::Ignored,
                    ),
                forall|i: int| #[trigger]
                    is_reached(at as int, i, answers.len() as int) ==> exists|widget: &mut W|
                     #[trigger]
                        asks(widget, old(self).widgets@[i].widget, *event, *buffer, area, answers[i])
                            && mut_ref_future(widget) == self.widgets@[i].widget,
            decreases at,
        {
            at -= 1;
            let ghost before = self.widgets@;
            let ghost ignored = answers;
            let answer = self.widgets[at].widget.dispatch(event, buffer, area);
            proof {
                answers = answers.update(at as int, answer);
                assert(terminals(self.widgets@) =~= terminals(before));
                let asked = choose|asked: &mut W|
                    mut_ref_current(asked) == before[at as int].widget && mut_ref_future(asked)
                        == self.widgets@[at as int].widget && #[trigger] call_ensures(
                        W::dispatch,
                        (asked, event, buffer, area),
                        answer,
                    );
                assert forall|i: int| #[trigger]
                    is_reached(at as int, i, answers.len() as int) implies exists|widget: &mut W|
                 #[trigger]
                    asks(widget, old(self).widgets@[i].widget, *event, *buffer, area, answers[i])
                        && mut_ref_future(widget) == self.widgets@[i].widget by {
                    if i == at {
                        assert(asks(
                            asked,
                            old(self).widgets@[i].widget,
                            *event,
                            *buffer,
                            area,
                            answers[i],
                        ));
                    } else {
                        assert(is_reached(at + 1, i, answers.len() as int));
                        let earlier = choose|widget: &mut W| #[trigger]
                            asks(
                                widget,
                                old(self).widgets@[i].widget,
                                *event,
                                *buffer,
                                area,
                                ignored[i],
                            ) && mut_ref_future(widget) == before[i].widget;
                        assert(asks(
                            earlier,
                            old(self).widgets@[i].widget,
                            *event,
                            *buffer,
                            area,
                            answers[i],
                        ));
                    }
                }
            }
            let ghost asked = self.widgets@;
            let settled = self.settle(at, answer);
            match settled {
                Some(answer) => {
                    proof {
                        lemma_relay_skips_ignored(
                            terminals(old(self).widgets@),
                            answers,
                            at + 1,
                            answers.len() as int,
                        );
                        lemma_claimant_skips_ignored(answers, at + 1, answers.len() as int);
                        if removes(asked[at as int].terminal, answers[at as int]) {
                            assert(terminals(self.widgets@) =~= terminals(asked).remove(at as int));
                        }
                        assert(relayed(old(self).stack(), answers, asked, self.stack(), answer));
                        assert forall|i: int| #[trigger] was_asked(answers, i) implies exists|
                            widget: &mut W,
                        | #[trigger]
                            asks(widget, old(self).stack()[i].widget, *event, *buffer, area, answers[i])
                                && mut_ref_future(widget) == asked[i].widget by {
                            assert(is_reached(at as int, i, answers.len() as int));
                        }
                    }
                    return answer;
                },
                None => {},
            }
        }
        let answer = Ok(Broadcast::Ignored);
        proof {
            lemma_relay_skips_ignored(
                terminals(old(self).widgets@),
                answers,
                0,
                answers.len() as int,
            );
            lemma_claimant_skips_ignored(answers, 0, answers.len() as int);
            assert(relayed(old(self).stack(), answers, self.stack(), self.stack(), answer));
            assert forall|i: int| #[trigger] was_asked(answers, i) implies exists|widget: &mut W|
             #[trigger]
                asks(widget, old(self).stack()[i].widget, *event, *buffer, area, answers[i])
                    && mut_ref_future(widget) == self.stack()[i].widget by {
                assert(is_reached(0, i, answers.len() as int));
            }
        }
        answer
    }

    /// Draws the layers from the bottom up, or only the topmost where the
    /// view does not show all, each widget in its area. The first failure of
    /// a widget ends the draw and is the view's failure.
    fn draw(&mut self, frame: &mut Frame, area: Rect) -> (done: Result<(), StringError>)
        ensures
            final(self).shows_all() == old(self).shows_all(),
            terminals(final(self).stack()) == terminals(old(self).stack()),
            exists|
                zs: Seq<u16>,
                plan: Seq<(u16, Seq<usize>)>,
                placed: Seq<Seq<Slot>>,
                stacks: Seq<Seq<Element<W>>>,
                frames: Seq<Frame>,
                results: Seq<Result<(), StringError>>,
            | #[trigger]
                rendered(
                    old(self).stack(),
                    old(self).shows_all(),
                    area,
                    *old(frame),
                    zs,
                    plan,
                    placed,
                    stacks,
                    frames,
                    results,
                    final(self).stack(),
                    *final(frame),
                    done,
                ) && forall|j: int| #[trigger]
                    is_step(results, j) ==> exists|widget: &mut W, canvas: &mut Frame| #[trigger]
                        paints(
                            widget,
                            canvas,
                            stacks[j][order_of(placed, old(self).shows_all())[j].1 as int].widget,
                            frames[j],
                            order_of(placed, old(self).shows_all())[j].0,
                            results[j],
                        ) && mut_ref_future(widget) == stacks[j + 1][order_of(
                            placed,
                            old(self).shows_all(),
                        )[j].1 as int].widget && mut_ref_future(canvas) == frames[j + 1],
    {
        let placed = self.layers(area);
        let ghost all = slot_views(placed@);
        let ghost (zs, plan) = choose|zs: Seq<u16>, plan: Seq<(u16, Seq<usize>)>|
            are_zindexes(self.stack(), zs) && #[trigger] are_layers(zs, plan) && laid_out(
                self.stack(),
                plan,
                all,
                area,
            );
        let visible = shown(placed, self.show_all);
        let order = drawing_order(&visible);
        proof {
            assert(slot_views(visible@) =~= shown_of(all, self.show_all));
            lemma_order_is_in_range(zs, plan, all, area);
            lemma_shown_is_in_range(all, self.show_all, self.widgets@.len() as int);
        }
        let done = self.paint(frame, &order);
        proof {
            let (stacks, frames, results) = choose|
                stacks: Seq<Seq<Element<W>>>,
                frames: Seq<Frame>,
                results: Seq<Result<(), StringError>>,
            | #[trigger]
                painted(
                    old(self).stack(),
                    *old(frame),
                    order@,
                    stacks,
                    frames,
                    results,
                    self.stack(),
                    *frame,
                    done,
                ) && forall|j: int| #[trigger]
                    is_step(results, j) ==> exists|widget: &mut W, canvas: &mut Frame| #[trigger]
                        paints(
                            widget,
                            canvas,
                            stacks[j][order@[j].1 as int].widget,
                            frames[j],
                            order@[j].0,
                            results[j],
                        ) && mut_ref_future(widget) == stacks[j + 1][order@[j].1 as int].widget
                            && mut_ref_future(canvas) == frames[j + 1];
            assert(rendered(
                old(self).stack(),
                old(self).shows_all(),
                area,
                *old(frame),
                zs,
                plan,
                all,
                stacks,
                frames,
                results,
                self.stack(),
                *frame,
                done,
            ));
        }
        done
    }
}

impl<W: Widget> View<W> {
    /// Draws the widgets at the positions of `order` one after another,
    /// each in its area, until one fails.
    fn paint(&mut self, frame: &mut Frame, order: &Vec<Slot>) -> (done: Result<(), StringError>)
        requires
            forall|j: int| 0 <= j < order@.len() ==> (#[trigger] order@[j]).1 < old(self).stack().len(),
        ensures
            final(self).shows_all() == old(self).shows_all(),
            terminals(final(self).stack()) == terminals(old(self).stack()),
            exists|
                stacks: Seq<Seq<Element<W>>>,
                frames: Seq<Frame>,
                results: Seq<Result<(), StringError>>,
            | #[trigger]
                painted(
                    old(self).stack(),
                    *old(frame),
                    order@,
                    stacks,
                    frames,
                    results,
                    final(self).stack(),
                    *final(frame),
                    done,
                ) && forall|j: int| #[trigger]
                    is_step(results, j) ==> exists|widget: &mut W, canvas: &mut Frame| #[trigger]
                        paints(
                            widget,
                            canvas,
                            stacks[j][order@[j].1 as int].widget,
                            frames[j],
                            order@[j].0,
                            results[j],
                        ) && mut_ref_future(widget) == stacks[j + 1][order@[j].1 as int].widget
                            && mut_ref_future(canvas) == frames[j + 1],
    {
        let ghost mut stacks: Seq<Seq<Element<W>>> = seq![self.widgets@];
        let ghost mut frames: Seq<Frame> = seq![*frame];
        let ghost mut results: Seq<Result<(), StringError>> = Seq::empty();
        let mut j: usize = 0;
        while j < order.len()
            invariant
                j <= order@.len(),
                self.show_all == old(self).show_all,
                self.widgets@.len() == old(self).widgets@.len(),
                terminals(self.widgets@) == terminals(old(self).widgets@),
                forall|j: int|
                    0 <= j < order@.len() ==> (#[trigger] order@[j]).1 < old(self).widgets@.len(),
                results.len() == j,
                stacks.len() == j + 1,
                frames.len() == j + 1,
                stacks[0] == old(self).widgets@,
                stacks.last() == self.widgets@,
                frames[0] == *old(frame),
                frames.last() == *frame,
                forall|i: int| 0 <= i < results.len() ==> (#[trigger] results[i]) is Ok,
                forall|i: int|
                    0 <= i < results.len() ==> differs_at(
                        #[trigger] stacks[i],
                        order@[i].1 as int,
                        stacks[i + 1],
                    ),
                forall|i: int| #[trigger]
                    is_step(results, i) ==> exists|widget: &mut W, canvas: &mut Frame| #[trigger]
                        paints(
                            widget,
                            canvas,
                            stacks[i][order@[i].1 as int].widget,
                            frames[i],
                            order@[i].0,
                            results[i],
                        ) && mut_ref_future(widget) == stacks[i + 1][order@[i].1 as int].widget
                            && mut_ref_future(canvas) == frames[i + 1],
            decreases order@.len() - j,
        {
            let slot: Slot = order[j];
            let ghost before = self.widgets@;
            let ghost canvas = *frame;
            let ghost (made, earlier, kept) = (results, stacks, frames);
            let drawn = self.widgets[slot.1].widget.draw(frame, slot.0);
            proof {
                results = results.push(drawn);
                stacks = stacks.push(self.widgets@);
                frames = frames.push(*frame);
                assert(terminals(self.widgets@) =~= terminals(before));
                assert(differs_at(before, slot.1 as int, self.widgets@));
                let (widget, painter) = choose|widget: &mut W, painter: &mut Frame|
                    mut_ref_current(widget) == before[slot.1 as int].widget && mut_ref_future(
                        widget,
                    ) == self.widgets@[slot.1 as int].widget && mut_ref_current(painter) == canvas
                        && mut_ref_future(painter) == *frame && #[trigger] call_ensures(
                        W::draw,
                        (widget, painter, slot.0),
                        drawn,
                    );
                assert forall|i: int| #[trigger] is_step(results, i) implies exists|
                    widget: &mut W,
                    canvas: &mut Frame,
                | #[trigger]
                    paints(
                        widget,
                        canvas,
                        stacks[i][order@[i].1 as int].widget,
                        frames[i],
                        order@[i].0,
                        results[i],
                    ) && mut_ref_future(widget) == stacks[i + 1][order@[i].1 as int].widget
                        && mut_ref_future(canvas) == frames[i + 1] by {
                    if i == j {
                        assert(paints(
                            widget,
                            painter,
                            stacks[i][order@[i].1 as int].widget,
                            frames[i],
                            order@[i].0,
                            results[i],
                        ));
                    } else {
                        assert(is_step(made, i));
                        let (widget, painter) = choose|widget: &mut W, painter: &mut Frame|
                         #[trigger]
                            paints(
                                widget,
                                painter,
                                earlier[i][order@[i].1 as int].widget,
                                kept[i],
                                order@[i].0,
                                made[i],
                            ) && mut_ref_future(widget) == earlier[i + 1][order@[i].1 as int].widget
                                && mut_ref_future(painter) == kept[i + 1];
                        assert(paints(
                            widget,
                            painter,
                            stacks[i][order@[i].1 as int].widget,
                            frames[i],
                            order@[i].0,
                            results[i],
                        ));
                    }
                }
                assert forall|i: int| 0 <= i < results.len() implies differs_at(
                    #[trigger] stacks[i],
                    order@[i].1 as int,
                    stacks[i + 1],
                ) by {
                    if i < j {
                        assert(differs_at(earlier[i], order@[i].1 as int, earlier[i + 1]));
                    }
                }
            }
            match drawn {
                Err(error) => {
                    proof {
                        assert(painted(
                            old(self).stack(),
                            *old(frame),
                            order@,
                            stacks,
                            frames,
                            results,
                            self.stack(),
                            *frame,
                            Err(error),
                        ));
                    }
                    return Err(error);
                },
                Ok(_) => {},
            }
            j += 1;
        }
        proof {
            assert(painted(
                old(self).stack(),
                *old(frame),
                order@,
                stacks,
                frames,
                results,
                self.stack(),
                *frame,
                Ok(()),
            ));
        }
        Ok(())
    }
}

/// Every position that a placed layering of a stack names is a position of
/// the stack.
proof fn lemma_order_is_in_range(
    zs: Seq<u16>,
    plan: Seq<(u16, Seq<usize>)>,
    placed: Seq<Seq<Slot>>,
    area: Rect,
)
    requires
        are_layers(zs, plan),
        places(plan, placed, area),
    ensures
        forall|l: int, k: int|
            0 <= l < placed.len() && 0 <= k < placed[l].len() ==> (#[trigger] placed[l][k]).1
                < zs.len(),
{
    assert forall|l: int, k: int| 0 <= l < placed.len() && 0 <= k < placed[l].len() implies (
    #[trigger] placed[l][k]).1 < zs.len() by {
        assert(is_run(zs, plan[l]));
        assert(plan[l].1[k] == plan[l].1[0] + k);
    }
}

/// Where every position that the layers name lies below `len`, so does
/// every position of the draw.
proof fn lemma_shown_is_in_range(placed: Seq<Seq<Slot>>, show_all: bool, len: int)
    requires
        forall|l: int, k: int|
            0 <= l < placed.len() && 0 <= k < placed[l].len() ==> (#[trigger] placed[l][k]).1 < len,
    ensures
        forall|j: int|
            0 <= j < in_order(shown_of(placed, show_all)).len() ==> (#[trigger] in_order(
                shown_of(placed, show_all),
            )[j]).1 < len,
{
    let shown = shown_of(placed, show_all);
    assert forall|l: int, k: int| 0 <= l < shown.len() && 0 <= k < shown[l].len() implies (
    #[trigger] shown[l][k]).1 < len by {
        if !(show_all || placed.len() <= 1) {
            assert(shown[l] == placed[placed.len() - 1 + l]);
        }
    }
    lemma_in_order_is_in_range(shown, len);
}

proof fn lemma_in_order_is_in_range(layers: Seq<Seq<Slot>>, len: int)
    requires
        forall|l: int, k: int|
            0 <= l < layers.len() && 0 <= k < layers[l].len() ==> (#[trigger] layers[l][k]).1 < len,
    ensures
        forall|j: int| 0 <= j < in_order(layers).len() ==> (#[trigger] in_order(layers)[j]).1 < len,
    decreases layers.len(),
{
    if layers.len() > 0 {
        let rest = layers.drop_last();
        assert forall|l: int, k: int| 0 <= l < rest.len() && 0 <= k < rest[l].len() implies (
        #[trigger] rest[l][k]).1 < len by {
            assert(rest[l] == layers[l]);
        }
        lemma_in_order_is_in_range(rest, len);
        assert forall|j: int| 0 <= j < in_order(layers).len() implies (#[trigger] in_order(
            layers,
        )[j]).1 < len by {
            if j >= in_order(rest).len() {
                assert(in_order(layers)[j] == layers.last()[j - in_order(rest).len()]);
            }
        }
    }
}

} // verus!
