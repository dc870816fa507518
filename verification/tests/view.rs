use std::cell::RefCell;
use std::rc::Rc;

use kuberift::events::{Broadcast, Event, Keypress, StringError};
use kuberift::widget::view::{Element, View};
use kuberift::widget::{BoxWidget, Placement, Widget};
use ratatui::buffer::Buffer;
use ratatui::layout::{Constraint, Rect};
use ratatui::Frame;

type Log = Rc<RefCell<Vec<String>>>;

#[derive(Clone, Copy)]
enum Answer {
    Ignore,
    Consume,
    Exit,
    Raw(u8),
    Fail,
}

struct Probe {
    name: &'static str,
    answer: Answer,
    log: Log,
}

impl Widget for Probe {
    type Raw = u8;

    fn dispatch(&mut self, _: &Event, _: &Buffer, _: Rect) -> Result<Broadcast<u8>, StringError> {
        self.log.borrow_mut().push(format!("ask {}", self.name));
        match self.answer {
            Answer::Ignore => Ok(Broadcast::Ignored),
            Answer::Consume => Ok(Broadcast::Consumed),
            Answer::Exit => Ok(Broadcast::Exited),
            Answer::Raw(raw) => Ok(Broadcast::Raw(raw)),
            Answer::Fail => Err(StringError(format!("{} failed", self.name))),
        }
    }

    fn draw(&mut self, _: &mut Frame, _: Rect) -> Result<(), StringError> {
        self.log.borrow_mut().push(format!("draw {}", self.name));
        Ok(())
    }
}

fn probe(name: &'static str, answer: Answer, log: &Log) -> BoxWidget<u8> {
    Box::new(Probe { name, answer, log: log.clone() })
}

fn plain(name: &'static str, answer: Answer, log: &Log) -> Element<BoxWidget<u8>> {
    Element::from(probe(name, answer, log))
}

fn terminal(name: &'static str, answer: Answer, log: &Log) -> Element<BoxWidget<u8>> {
    Element::builder().widget(probe(name, answer, log)).terminal(true).build()
}

fn view_of(widgets: Vec<Element<BoxWidget<u8>>>) -> View<BoxWidget<u8>> {
    View::builder().widgets(widgets).build()
}

fn ask(view: &mut View<BoxWidget<u8>>) -> Result<Broadcast<u8>, StringError> {
    let buffer = Buffer::empty(Rect::new(0, 0, 4, 4));
    view.dispatch(&Event::Keypress(Keypress::Escape), &buffer, buffer.area)
}

fn taken(log: &Log) -> Vec<String> {
    log.borrow_mut().drain(..).collect()
}

#[test]
fn builder_starts_empty() {
    let view: View<BoxWidget<u8>> = View::builder().build();
    assert_eq!(view.len(), 0);
}

#[test]
fn element_from_widget_is_not_terminal() {
    let log = Log::default();
    assert!(!plain("a", Answer::Ignore, &log).terminal);
    assert!(!Element::builder().widget(probe("a", Answer::Ignore, &log)).build().terminal);
}

#[test]
fn element_builder_takes_terminal_before_and_after_widget() {
    let log = Log::default();
    let first = Element::builder().terminal(true).widget(probe("a", Answer::Ignore, &log)).build();
    assert!(first.terminal);
    let second = Element::builder().widget(probe("a", Answer::Ignore, &log)).terminal(true).build();
    assert!(second.terminal);
    let third =
        Element::builder().terminal(true).widget(probe("a", Answer::Ignore, &log)).terminal(false).build();
    assert!(!third.terminal);
}

#[test]
fn element_hands_everything_to_its_widget() {
    struct High;
    impl Widget for High {
        type Raw = u8;
        fn dispatch(&mut self, _: &Event, _: &Buffer, _: Rect) -> Result<Broadcast<u8>, StringError> {
            Ok(Broadcast::Raw(9))
        }
        fn draw(&mut self, _: &mut Frame, _: Rect) -> Result<(), StringError> {
            Err(StringError(String::from("no room")))
        }
        fn placement(&self) -> Placement {
            Placement { horizontal: Constraint::Length(3), vertical: Constraint::Max(2) }
        }
        fn zindex(&self) -> u16 {
            7
        }
    }
    let mut element = Element::from(High);
    assert_eq!(element.zindex(), 7);
    assert_eq!(element.placement().vertical, Constraint::Max(2));
    assert_eq!(element.placement().horizontal, Constraint::Length(3));
    let buffer = Buffer::empty(Rect::new(0, 0, 1, 1));
    assert!(matches!(element.dispatch(&Event::Render, &buffer, buffer.area), Ok(Broadcast::Raw(9))));
}

#[test]
fn widget_defaults_fill_layer_zero() {
    let log = Log::default();
    let widget = probe("a", Answer::Ignore, &log);
    assert_eq!(widget.zindex(), 0);
    assert_eq!(widget.placement().vertical, Constraint::Fill(0));
    assert_eq!(widget.placement().horizontal, Constraint::Fill(0));
    assert_eq!(Placement::default().vertical, Constraint::Fill(0));
}

#[test]
fn push_goes_on_top_and_pop_takes_from_the_top() {
    let log = Log::default();
    let mut view = view_of(vec![]);
    assert!(view.pop().is_none());
    view.push(plain("below", Answer::Consume, &log));
    view.push(plain("above", Answer::Consume, &log));
    assert_eq!(view.len(), 2);
    let mut top = view.pop().unwrap();
    assert_eq!(view.len(), 1);
    let buffer = Buffer::empty(Rect::new(0, 0, 1, 1));
    top.dispatch(&Event::Render, &buffer, buffer.area).unwrap();
    assert_eq!(taken(&log), vec!["ask above"]);
    assert!(view.pop().is_some());
    assert!(view.pop().is_none());
    assert_eq!(view.len(), 0);
}

#[test]
fn empty_view_ignores() {
    let mut view = view_of(vec![]);
    assert!(matches!(ask(&mut view), Ok(Broadcast::Ignored)));
}

#[test]
fn view_asks_from_the_top_until_one_claims() {
    let log = Log::default();
    let mut view = view_of(vec![
        plain("bottom", Answer::Consume, &log),
        plain("middle", Answer::Consume, &log),
        plain("top", Answer::Ignore, &log),
    ]);
    assert!(matches!(ask(&mut view), Ok(Broadcast::Consumed)));
    assert_eq!(taken(&log), vec!["ask top", "ask middle"]);
    assert_eq!(view.len(), 3);
}

#[test]
fn view_ignores_where_all_ignore() {
    let log = Log::default();
    let mut view = view_of(vec![plain("a", Answer::Ignore, &log), terminal("b", Answer::Ignore, &log)]);
    assert!(matches!(ask(&mut view), Ok(Broadcast::Ignored)));
    assert_eq!(taken(&log), vec!["ask b", "ask a"]);
    assert_eq!(view.len(), 2);
}

#[test]
fn raw_request_passes_through_unchanged() {
    let log = Log::default();
    let mut view = view_of(vec![terminal("base", Answer::Raw(42), &log)]);
    assert!(matches!(ask(&mut view), Ok(Broadcast::Raw(42))));
    assert_eq!(view.len(), 1);
}

#[test]
fn failure_of_an_element_is_the_failure_of_the_view() {
    let log = Log::default();
    let mut view = view_of(vec![
        plain("bottom", Answer::Consume, &log),
        plain("broken", Answer::Fail, &log),
        plain("top", Answer::Ignore, &log),
    ]);
    match ask(&mut view) {
        Err(error) => assert_eq!(error.message(), "broken failed"),
        Ok(_) => panic!("the failure was lost"),
    }
    assert_eq!(taken(&log), vec!["ask top", "ask broken"]);
    assert_eq!(view.len(), 3);
}

#[test]
fn exit_of_plain_element_removes_exactly_it() {
    let log = Log::default();
    let mut view = view_of(vec![
        terminal("base", Answer::Exit, &log),
        plain("leaving", Answer::Exit, &log),
        plain("idle", Answer::Ignore, &log),
    ]);
    assert!(matches!(ask(&mut view), Ok(Broadcast::Ignored)));
    assert_eq!(taken(&log), vec!["ask idle", "ask leaving"]);
    assert_eq!(view.len(), 2);
    let mut top = view.pop().unwrap();
    let buffer = Buffer::empty(Rect::new(0, 0, 1, 1));
    top.dispatch(&Event::Render, &buffer, buffer.area).unwrap();
    assert_eq!(taken(&log), vec!["ask idle"]);
}

#[test]
fn exits_of_plain_elements_never_reach_the_caller() {
    let log = Log::default();
    let mut view = view_of(vec![
        plain("a", Answer::Exit, &log),
        plain("b", Answer::Exit, &log),
        plain("c", Answer::Exit, &log),
    ]);
    for left in [2, 1, 0] {
        assert!(matches!(ask(&mut view), Ok(Broadcast::Ignored)));
        assert_eq!(view.len(), left);
    }
    assert_eq!(taken(&log), vec!["ask c", "ask b", "ask a"]);
    assert!(matches!(ask(&mut view), Ok(Broadcast::Ignored)));
}

#[test]
fn exit_of_terminal_element_at_the_bottom_cascades() {
    let log = Log::default();
    let mut view =
        view_of(vec![terminal("base", Answer::Exit, &log), plain("idle", Answer::Ignore, &log)]);
    assert!(matches!(ask(&mut view), Ok(Broadcast::Exited)));
    assert_eq!(taken(&log), vec!["ask idle", "ask base"]);
    assert_eq!(view.len(), 2);
}

#[test]
fn settle_says_what_each_answer_does() {
    let log = Log::default();
    let mut view = view_of(vec![terminal("base", Answer::Ignore, &log), plain("over", Answer::Ignore, &log)]);
    assert!(view.settle::<u8>(1, Ok(Broadcast::Ignored)).is_none());
    assert!(matches!(view.settle::<u8>(1, Ok(Broadcast::Consumed)), Some(Ok(Broadcast::Consumed))));
    assert!(matches!(view.settle(1, Ok(Broadcast::Raw(5u8))), Some(Ok(Broadcast::Raw(5)))));
    match view.settle::<u8>(1, Err(StringError(String::from("bad")))) {
        Some(Err(error)) => assert_eq!(error.message(), "bad"),
        _ => panic!("the failure was lost"),
    }
    assert_eq!(view.len(), 2);
    assert!(matches!(view.settle::<u8>(0, Ok(Broadcast::Exited)), Some(Ok(Broadcast::Exited))));
    assert_eq!(view.len(), 2);
    assert!(matches!(view.settle::<u8>(1, Ok(Broadcast::Exited)), Some(Ok(Broadcast::Ignored))));
    assert_eq!(view.len(), 1);
}

#[test]
fn view_has_default_layer_and_placement() {
    let log = Log::default();
    let view = view_of(vec![plain("a", Answer::Ignore, &log)]);
    assert_eq!(view.zindex(), 0);
    assert_eq!(view.placement().vertical, Constraint::Fill(0));
}
