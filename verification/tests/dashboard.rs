use std::cell::RefCell;
use std::rc::Rc;

use kuberift::dashboard::{dispatch_ui, route, Mode, Step, FAREWELL, FPS, RENDER_INTERVAL};
use kuberift::events::{Broadcast, Event, Keypress, StringError};
use kuberift::widget::view::{Element, View};
use kuberift::widget::{BoxWidget, Widget};
use ratatui::backend::TestBackend;
use ratatui::buffer::Buffer;
use ratatui::layout::Rect;
use ratatui::{Frame, Terminal};

type Log = Rc<RefCell<Vec<String>>>;
type Any = BoxWidget<&'static str>;

/// A widget that leaves on escape.
struct Leaver {
    name: &'static str,
    z: u16,
    log: Log,
}

impl Widget for Leaver {
    type Raw = &'static str;

    fn dispatch(
        &mut self,
        event: &Event,
        _: &Buffer,
        _: Rect,
    ) -> Result<Broadcast<&'static str>, StringError> {
        self.log.borrow_mut().push(format!("ask {}", self.name));
        match event.key() {
            Some(Keypress::Escape) => Ok(Broadcast::Exited),
            _ => Ok(Broadcast::Ignored),
        }
    }

    fn draw(&mut self, _: &mut Frame, _: Rect) -> Result<(), StringError> {
        self.log.borrow_mut().push(format!("draw {}", self.name));
        Ok(())
    }

    fn zindex(&self) -> u16 {
        self.z
    }
}

/// A root that opens a tunnel on `t`, and tells of the tunnel's failure.
struct Shell {
    view: View<Any>,
    log: Log,
}

impl Widget for Shell {
    type Raw = &'static str;

    fn dispatch(
        &mut self,
        event: &Event,
        buffer: &Buffer,
        area: Rect,
    ) -> Result<Broadcast<&'static str>, StringError> {
        match event {
            Event::Input(input) if input.key == Keypress::Printable('t') => {
                return Ok(Broadcast::Raw("tunnel"));
            }
            Event::Input(input) if input.key == Keypress::Printable('!') => {
                return Err(StringError(String::from("shell broke")));
            }
            Event::Finished(outcome) => {
                self.log.borrow_mut().push(format!("finished {:?}", outcome));
                if outcome.is_err() {
                    let overlay: Any = Box::new(Leaver { name: "error", z: 1, log: self.log.clone() });
                    self.view.push(Element::from(overlay));
                }
                return Ok(Broadcast::Consumed);
            }
            _ => {}
        }
        self.view.dispatch(event, buffer, area)
    }

    fn draw(&mut self, frame: &mut Frame, area: Rect) -> Result<(), StringError> {
        self.view.draw(frame, area)
    }
}

fn leaver(name: &'static str, z: u16, log: &Log) -> Any {
    Box::new(Leaver { name, z, log: log.clone() })
}

fn shell(log: &Log) -> Any {
    let base = Element::builder().widget(leaver("base", 0, log)).terminal(true).build();
    Box::new(Shell { view: View::builder().widgets(vec![base]).build(), log: log.clone() })
}

fn taken(log: &Log) -> Vec<String> {
    log.borrow_mut().drain(..).collect()
}

/// Runs the render loop over `events`, the way a session does: draws where
/// the mode says so, runs a raw widget by taking its outcome from `runs`,
/// and says goodbye at the end. Gives what reached the operator.
fn session(
    mode: &mut Mode<Any>,
    events: Vec<Event>,
    mut runs: Vec<Result<(), StringError>>,
    log: &Log,
) -> Result<Vec<String>, StringError> {
    let mut terminal = Terminal::new(TestBackend::new(20, 6)).unwrap();
    let mut sink = Vec::new();
    for event in events {
        let area = Rect::new(0, 0, 20, 6);
        let buffer = Buffer::empty(area);
        let answer = match mode.turn(&event, &buffer, area) {
            Some(handled) => {
                if handled.draw {
                    let mut drawn = Ok(());
                    terminal
                        .draw(|frame| {
                            drawn = mode.draw(frame, frame.area());
                        })
                        .unwrap();
                    drawn?;
                    sink.push(format!("frame: {}", taken(log).join(", ")));
                }
                handled.answer?
            }
            None => {
                if let Mode::Raw(raw, _) = &*mode {
                    sink.push(format!("raw: {}", raw));
                }
                mode.finish(runs.remove(0), &buffer, area)?
            }
        };
        if !mode.advance(answer) {
            break;
        }
    }
    sink.push(String::from(FAREWELL));
    Ok(sink)
}

fn escape() -> Event {
    Event::Keypress(Keypress::Escape)
}

fn key(byte: u8) -> Event {
    Event::input(vec![byte])
}

#[test]
fn ten_frames_a_second() {
    assert_eq!(FPS, 10);
    assert_eq!(RENDER_INTERVAL, 100);
    assert_eq!(FAREWELL, "exiting...");
}

#[test]
fn route_of_each_event() {
    assert_eq!(route(&Event::Render), Step::Draw);
    assert_eq!(route(&key(0x03)), Step::Exit);
    assert_eq!(route(&key(0x1b)), Step::Dispatch);
    assert_eq!(route(&key(b'a')), Step::Dispatch);
    assert_eq!(route(&Event::Keypress(Keypress::EndOfText)), Step::Dispatch);
    assert_eq!(route(&Event::Keypress(Keypress::Escape)), Step::Dispatch);
    assert_eq!(route(&Event::Resize(Rect::new(0, 0, 1, 1))), Step::Dispatch);
    assert_eq!(route(&Event::Finished(Ok(()))), Step::Dispatch);
    assert_eq!(route(&Event::Tunnel(Ok(String::new()))), Step::Dispatch);
}

#[test]
fn control_c_exits_without_asking_or_drawing() {
    let log = Log::default();
    let mut widget = leaver("base", 0, &log);
    let buffer = Buffer::empty(Rect::new(0, 0, 2, 2));
    let handled = dispatch_ui(&mut widget, &key(0x03), &buffer, buffer.area);
    assert!(!handled.draw);
    assert!(matches!(handled.answer, Ok(Broadcast::Exited)));
    assert!(log.borrow().is_empty());
}

#[test]
fn tick_draws_without_asking() {
    let log = Log::default();
    let mut widget = leaver("base", 0, &log);
    let buffer = Buffer::empty(Rect::new(0, 0, 2, 2));
    let handled = dispatch_ui(&mut widget, &Event::Render, &buffer, buffer.area);
    assert!(handled.draw);
    assert!(matches!(handled.answer, Ok(Broadcast::Ignored)));
    assert!(log.borrow().is_empty());
}

#[test]
fn other_events_are_asked_then_drawn() {
    let log = Log::default();
    let mut widget = leaver("base", 0, &log);
    let buffer = Buffer::empty(Rect::new(0, 0, 2, 2));
    let handled = dispatch_ui(&mut widget, &key(b'x'), &buffer, buffer.area);
    assert!(handled.draw);
    assert!(matches!(handled.answer, Ok(Broadcast::Ignored)));
    let handled = dispatch_ui(&mut widget, &escape(), &buffer, buffer.area);
    assert!(handled.draw);
    assert!(matches!(handled.answer, Ok(Broadcast::Exited)));
    assert_eq!(taken(&log), vec!["ask base", "ask base"]);
}

#[test]
fn raw_keeps_the_widget_tree_aside() {
    let log = Log::default();
    let mut mode = Mode::UI(leaver("base", 0, &log));
    mode.raw("first");
    assert!(matches!(mode, Mode::Raw("first", _)));
    mode.raw("second");
    assert!(matches!(mode, Mode::Raw("second", _)));
    mode.ui();
    match &mut mode {
        Mode::UI(widget) => {
            let buffer = Buffer::empty(Rect::new(0, 0, 2, 2));
            widget.dispatch(&Event::Render, &buffer, buffer.area).unwrap();
        }
        Mode::Raw(..) => panic!("still raw"),
    }
    assert_eq!(taken(&log), vec!["ask base"]);
}

#[test]
fn enter_and_resume_by_value() {
    let log = Log::default();
    let mode = Mode::UI(leaver("base", 0, &log)).enter("raw");
    assert!(matches!(mode, Mode::Raw("raw", _)));
    let mode = mode.enter("other");
    assert!(matches!(mode, Mode::Raw("other", _)));
    let mode = mode.resume();
    assert!(matches!(mode, Mode::UI(_)));
    let mode = mode.resume();
    assert!(matches!(mode, Mode::UI(_)));
}

#[test]
fn second_finish_has_no_effect() {
    let log = Log::default();
    let mut mode = Mode::UI(shell(&log));
    mode.raw("tunnel");
    let buffer = Buffer::empty(Rect::new(0, 0, 2, 2));
    let answer = mode.finish(Ok(()), &buffer, buffer.area);
    assert!(matches!(answer, Ok(Broadcast::Consumed)));
    assert!(matches!(mode, Mode::UI(_)));
    assert_eq!(taken(&log), vec!["finished Ok(())"]);
    let answer = mode.finish(Err(StringError(String::from("again"))), &buffer, buffer.area);
    assert!(matches!(answer, Ok(Broadcast::Ignored)));
    assert!(matches!(mode, Mode::UI(_)));
    assert!(log.borrow().is_empty());
    mode.ui();
    assert!(matches!(mode, Mode::UI(_)));
    assert!(log.borrow().is_empty());
}

#[test]
fn advance_acts_on_each_answer() {
    let log = Log::default();
    let mut mode = Mode::UI(leaver("base", 0, &log));
    assert!(mode.advance(Broadcast::Ignored));
    assert!(matches!(mode, Mode::UI(_)));
    assert!(mode.advance(Broadcast::Consumed));
    assert!(matches!(mode, Mode::UI(_)));
    assert!(!mode.advance(Broadcast::Exited));
    assert!(matches!(mode, Mode::UI(_)));
    assert!(mode.advance(Broadcast::Raw("tunnel")));
    assert!(matches!(mode, Mode::Raw("tunnel", _)));
    assert!(!mode.advance(Broadcast::Exited));
    assert!(matches!(mode, Mode::Raw("tunnel", _)));
}

#[test]
fn turn_in_raw_mode_touches_nothing() {
    let log = Log::default();
    let mut mode = Mode::UI(leaver("base", 0, &log));
    mode.raw("tunnel");
    let buffer = Buffer::empty(Rect::new(0, 0, 2, 2));
    assert!(mode.turn(&Event::Render, &buffer, buffer.area).is_none());
    assert!(mode.turn(&escape(), &buffer, buffer.area).is_none());
    assert!(mode.turn(&key(0x03), &buffer, buffer.area).is_none());
    assert!(matches!(mode, Mode::Raw("tunnel", _)));
    assert!(log.borrow().is_empty());
}

#[test]
fn failure_to_take_finished_still_hands_the_terminal_back() {
    struct Deaf;
    impl Widget for Deaf {
        type Raw = &'static str;
        fn dispatch(
            &mut self,
            _: &Event,
            _: &Buffer,
            _: Rect,
        ) -> Result<Broadcast<&'static str>, StringError> {
            Err(StringError(String::from("deaf")))
        }
        fn draw(&mut self, _: &mut Frame, _: Rect) -> Result<(), StringError> {
            Ok(())
        }
    }
    let mut mode = Mode::Raw("tunnel", Deaf);
    let buffer = Buffer::empty(Rect::new(0, 0, 2, 2));
    match mode.finish(Ok(()), &buffer, buffer.area) {
        Err(error) => assert_eq!(error.message(), "deaf"),
        Ok(_) => panic!("the failure was lost"),
    }
    assert!(matches!(mode, Mode::UI(_)));
}

#[test]
fn escape_pops_the_overlay_then_ends_the_session() {
    let log = Log::default();
    let base = Element::builder().widget(leaver("base", 0, &log)).terminal(true).build();
    let overlay = Element::from(leaver("overlay", 1, &log));
    let root: Any = Box::new(View::builder().widgets(vec![base, overlay]).build());
    let mut mode = Mode::UI(root);

    let sink = session(&mut mode, vec![Event::Render, escape(), Event::Render], vec![], &log).unwrap();
    assert_eq!(sink, vec![
        "frame: draw overlay",
        "frame: ask overlay, draw base",
        "frame: draw base",
        "exiting...",
    ]);
    assert!(matches!(mode, Mode::UI(_)));

    let sink = session(&mut mode, vec![escape(), Event::Render], vec![], &log).unwrap();
    assert_eq!(sink, vec!["frame: ask base, draw base", "exiting..."]);
}

#[test]
fn tunnel_takes_the_terminal_and_hands_it_back_with_its_failure() {
    let log = Log::default();
    let mut mode = Mode::UI(shell(&log));
    let sink = session(
        &mut mode,
        vec![Event::Render, key(b't'), Event::Render, Event::Render, escape(), Event::Render],
        vec![Err(StringError(String::from("connection reset")))],
        &log,
    )
    .unwrap();
    assert_eq!(sink, vec![
        "frame: draw base",
        "frame: draw base",
        "raw: tunnel",
        "frame: finished Err(StringError(\"connection reset\")), draw error",
        "frame: ask error, draw base",
        "frame: draw base",
        "exiting...",
    ]);
    assert!(matches!(mode, Mode::UI(_)));
}

#[test]
fn no_frame_is_drawn_while_the_tunnel_runs() {
    let log = Log::default();
    let mut mode = Mode::UI(shell(&log));
    let sink = session(&mut mode, vec![key(b't')], vec![], &log).unwrap();
    assert_eq!(sink, vec!["frame: draw base", "exiting..."]);
    assert!(matches!(mode, Mode::Raw("tunnel", _)));
    let buffer = Buffer::empty(Rect::new(0, 0, 2, 2));
    for _ in 0..3 {
        assert!(mode.turn(&Event::Render, &buffer, buffer.area).is_none());
    }
    assert!(log.borrow().is_empty());
}

#[test]
fn failure_of_a_widget_ends_the_session() {
    let log = Log::default();
    let mut mode = Mode::UI(shell(&log));
    match session(&mut mode, vec![Event::Render, key(b'!'), Event::Render], vec![], &log) {
        Err(error) => assert_eq!(error.message(), "shell broke"),
        Ok(sink) => panic!("the session went on: {:?}", sink),
    }
}

#[test]
fn control_c_ends_the_session_at_once() {
    let log = Log::default();
    let mut mode = Mode::UI(shell(&log));
    let sink = session(&mut mode, vec![Event::Render, key(0x03), Event::Render], vec![], &log).unwrap();
    assert_eq!(sink, vec!["frame: draw base", "exiting..."]);
}

#[test]
fn mode_draws_the_widget_tree_only_while_it_has_the_terminal() {
    let log = Log::default();
    let mut mode = Mode::UI(leaver("base", 0, &log));
    let mut terminal = Terminal::new(TestBackend::new(20, 6)).unwrap();
    terminal
        .draw(|frame| {
            mode.draw(frame, frame.area()).unwrap();
        })
        .unwrap();
    assert_eq!(taken(&log), vec!["draw base"]);
    mode.raw("tunnel");
    terminal
        .draw(|frame| {
            mode.draw(frame, frame.area()).unwrap();
        })
        .unwrap();
    assert!(log.borrow().is_empty());
    assert!(matches!(mode, Mode::Raw("tunnel", _)));
}

#[test]
fn failure_to_draw_is_the_failure_of_the_mode() {
    struct Blind;
    impl Widget for Blind {
        type Raw = &'static str;
        fn dispatch(
            &mut self,
            _: &Event,
            _: &Buffer,
            _: Rect,
        ) -> Result<Broadcast<&'static str>, StringError> {
            Ok(Broadcast::Ignored)
        }
        fn draw(&mut self, _: &mut Frame, _: Rect) -> Result<(), StringError> {
            Err(StringError(String::from("blind")))
        }
    }
    let mut mode = Mode::UI(Blind);
    let mut terminal = Terminal::new(TestBackend::new(20, 6)).unwrap();
    let mut drawn = Ok(());
    terminal
        .draw(|frame| {
            drawn = mode.draw(frame, frame.area());
        })
        .unwrap();
    match drawn {
        Err(error) => assert_eq!(error.message(), "blind"),
        Ok(()) => panic!("the failure was lost"),
    }
    assert!(matches!(mode, Mode::UI(_)));
}
