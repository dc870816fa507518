use std::cell::RefCell;
use std::cmp::Ordering;
use std::rc::Rc;

use kuberift::events::{Broadcast, Event, StringError};
use kuberift::widget::layers::{arrange, by_zindex, drawing_order, shown, stack_vertically};
use kuberift::widget::view::{Element, View};
use kuberift::widget::{BoxWidget, Placement, Widget};
use ratatui::backend::TestBackend;
use ratatui::buffer::Buffer;
use ratatui::layout::{Constraint, Rect};
use ratatui::{Frame, Terminal};

type Log = Rc<RefCell<Vec<(&'static str, Rect)>>>;

struct Pane {
    name: &'static str,
    z: u16,
    height: Constraint,
    fails: bool,
    log: Log,
}

impl Widget for Pane {
    type Raw = u8;

    fn dispatch(&mut self, _: &Event, _: &Buffer, _: Rect) -> Result<Broadcast<u8>, StringError> {
        Ok(Broadcast::Ignored)
    }

    fn draw(&mut self, _: &mut Frame, area: Rect) -> Result<(), StringError> {
        self.log.borrow_mut().push((self.name, area));
        if self.fails {
            return Err(StringError(format!("{} cannot draw", self.name)));
        }
        Ok(())
    }

    fn placement(&self) -> Placement {
        Placement { horizontal: Constraint::Fill(0), vertical: self.height }
    }

    fn zindex(&self) -> u16 {
        self.z
    }
}

fn pane(name: &'static str, z: u16, height: Constraint, log: &Log) -> Element<BoxWidget<u8>> {
    let widget: BoxWidget<u8> = Box::new(Pane { name, z, height, fails: false, log: log.clone() });
    Element::from(widget)
}

fn view_of(zs: &[(&'static str, u16)], show_all: bool, log: &Log) -> View<BoxWidget<u8>> {
    let widgets = zs.iter().map(|(name, z)| pane(name, *z, Constraint::Fill(1), log)).collect();
    View::builder().widgets(widgets).show_all(show_all).build()
}

fn draw(view: &mut View<BoxWidget<u8>>, width: u16, height: u16) -> Result<(), StringError> {
    let mut terminal = Terminal::new(TestBackend::new(width, height)).unwrap();
    let mut done = Ok(());
    terminal
        .draw(|frame| {
            done = view.draw(frame, frame.area());
        })
        .unwrap();
    done
}

fn names(log: &Log) -> Vec<&'static str> {
    log.borrow().iter().map(|(name, _)| *name).collect()
}

#[test]
fn no_widgets_no_layers() {
    assert_eq!(arrange(&vec![]), vec![]);
}

#[test]
fn one_widget_one_layer() {
    assert_eq!(arrange(&vec![5]), vec![(5, vec![0])]);
}

#[test]
fn neighbours_of_one_zindex_share_a_layer() {
    assert_eq!(arrange(&vec![0, 0, 0, 1, 1]), vec![(0, vec![0, 1, 2]), (1, vec![3, 4])]);
}

#[test]
fn layers_come_in_ascending_zindex() {
    assert_eq!(arrange(&vec![1, 0]), vec![(0, vec![1]), (1, vec![0])]);
    assert_eq!(arrange(&vec![3, 3, 1, 2, 2]), vec![(1, vec![2]), (2, vec![3, 4]), (3, vec![0, 1])]);
}

#[test]
fn runs_that_are_apart_stay_apart_in_stack_order() {
    assert_eq!(
        arrange(&vec![0, 0, 1, 1, 0]),
        vec![(0, vec![0, 1]), (0, vec![4]), (1, vec![2, 3])]
    );
    assert_eq!(
        arrange(&vec![2, 1, 2, 1, 2]),
        vec![(1, vec![1]), (1, vec![3]), (2, vec![0]), (2, vec![2]), (2, vec![4])]
    );
}

#[test]
fn highest_zindex_is_a_layer_of_its_own() {
    assert_eq!(arrange(&vec![u16::MAX, 0, u16::MAX]), vec![
        (0, vec![1]),
        (u16::MAX, vec![0]),
        (u16::MAX, vec![2])
    ]);
}

#[test]
fn shown_is_all_or_the_last() {
    let layers = vec![(0u16, vec![0usize]), (1, vec![1]), (2, vec![2])];
    assert_eq!(shown(layers.clone(), true), layers);
    assert_eq!(shown(layers.clone(), false), vec![(2, vec![2])]);
    assert_eq!(shown(vec![(4u16, vec![0usize])], false), vec![(4, vec![0])]);
    assert_eq!(shown(Vec::<(u16, Vec<usize>)>::new(), false), vec![]);
    assert_eq!(shown(Vec::<(u16, Vec<usize>)>::new(), true), vec![]);
}

#[test]
fn show_all_draws_two_layers_bottom_to_top() {
    let log = Log::default();
    let mut view =
        view_of(&[("a", 0), ("b", 0), ("c", 0), ("d", 1), ("e", 1)], true, &log);
    draw(&mut view, 10, 6).unwrap();
    assert_eq!(names(&log), vec!["a", "b", "c", "d", "e"]);
}

#[test]
fn modal_draws_only_the_topmost_layer() {
    let log = Log::default();
    let mut view =
        view_of(&[("a", 0), ("b", 0), ("c", 0), ("d", 1), ("e", 1)], false, &log);
    draw(&mut view, 10, 6).unwrap();
    assert_eq!(names(&log), vec!["d", "e"]);
}

#[test]
fn modal_draws_the_base_where_nothing_is_above() {
    let log = Log::default();
    let mut view = view_of(&[("a", 0), ("b", 0)], false, &log);
    draw(&mut view, 10, 6).unwrap();
    assert_eq!(names(&log), vec!["a", "b"]);
}

#[test]
fn unsorted_stack_draws_by_zindex_then_by_place() {
    let log = Log::default();
    let mut view =
        view_of(&[("a", 0), ("b", 0), ("c", 1), ("d", 1), ("e", 0)], true, &log);
    draw(&mut view, 10, 6).unwrap();
    assert_eq!(names(&log), vec!["a", "b", "e", "c", "d"]);
    let log = Log::default();
    let mut view =
        view_of(&[("a", 0), ("b", 0), ("c", 1), ("d", 1), ("e", 0)], false, &log);
    draw(&mut view, 10, 6).unwrap();
    assert_eq!(names(&log), vec!["c", "d"]);
}

#[test]
fn empty_view_draws_nothing() {
    let log = Log::default();
    let mut view = view_of(&[], true, &log);
    draw(&mut view, 10, 6).unwrap();
    assert!(log.borrow().is_empty());
    assert_eq!(view.layers(Rect::new(0, 0, 10, 6)), Vec::<Vec<(Rect, usize)>>::new());
}

#[test]
fn widgets_of_a_layer_are_stacked_in_the_area() {
    let log = Log::default();
    let view = View::builder()
        .widgets(vec![
            pane("head", 0, Constraint::Length(2), &log),
            pane("body", 0, Constraint::Length(4), &log),
        ])
        .build();
    let area = Rect::new(3, 1, 10, 6);
    assert_eq!(
        view.layers(area),
        vec![vec![(Rect::new(3, 1, 10, 2), 0), (Rect::new(3, 3, 10, 4), 1)]]
    );
}

#[test]
fn every_layer_gets_the_whole_area() {
    let log = Log::default();
    let view = View::builder()
        .widgets(vec![
            pane("over", 1, Constraint::Length(6), &log),
            pane("head", 0, Constraint::Length(1), &log),
            pane("body", 0, Constraint::Length(5), &log),
        ])
        .show_all(true)
        .build();
    let area = Rect::new(0, 0, 8, 6);
    assert_eq!(
        view.layers(area),
        vec![
            vec![(Rect::new(0, 0, 8, 1), 1), (Rect::new(0, 1, 8, 5), 2)],
            vec![(Rect::new(0, 0, 8, 6), 0)],
        ]
    );
}

#[test]
fn each_widget_is_drawn_in_its_area() {
    let log = Log::default();
    let mut view = View::builder()
        .widgets(vec![
            pane("head", 0, Constraint::Length(2), &log),
            pane("body", 0, Constraint::Length(4), &log),
        ])
        .build();
    draw(&mut view, 10, 6).unwrap();
    assert_eq!(*log.borrow(), vec![
        ("head", Rect::new(0, 0, 10, 2)),
        ("body", Rect::new(0, 2, 10, 4))
    ]);
}

#[test]
fn first_failure_ends_the_draw() {
    let log = Log::default();
    let broken: BoxWidget<u8> =
        Box::new(Pane { name: "broken", z: 0, height: Constraint::Fill(1), fails: true, log: log.clone() });
    let mut view = View::builder()
        .widgets(vec![
            pane("first", 0, Constraint::Fill(1), &log),
            Element::from(broken),
            pane("last", 0, Constraint::Fill(1), &log),
        ])
        .show_all(true)
        .build();
    match draw(&mut view, 10, 6) {
        Err(error) => assert_eq!(error.message(), "broken cannot draw"),
        Ok(()) => panic!("the failure was lost"),
    }
    assert_eq!(names(&log), vec!["first", "broken"]);
    assert_eq!(view.len(), 3);
}

#[test]
fn runs_compare_by_zindex_alone() {
    assert_eq!(by_zindex(&(0, vec![5]), &(1, vec![0])), Ordering::Less);
    assert_eq!(by_zindex(&(2, vec![0]), &(1, vec![5])), Ordering::Greater);
    assert_eq!(by_zindex(&(1, vec![0]), &(1, vec![5, 6])), Ordering::Equal);
    assert_eq!(by_zindex(&(0, vec![0]), &(u16::MAX, vec![1])), Ordering::Less);
}

#[test]
fn drawing_order_goes_layer_by_layer() {
    let (a, b, c) = (Rect::new(0, 0, 4, 1), Rect::new(0, 1, 4, 1), Rect::new(0, 0, 4, 2));
    assert_eq!(drawing_order(&vec![vec![(a, 1), (b, 2)], vec![(c, 0)]]), vec![(a, 1), (b, 2), (c, 0)]);
    assert_eq!(drawing_order(&vec![vec![], vec![(c, 3)], vec![]]), vec![(c, 3)]);
    assert_eq!(drawing_order(&vec![]), vec![]);
}

#[test]
fn stacked_areas_share_out_the_height() {
    let area = Rect::new(2, 3, 10, 6);
    assert_eq!(
        stack_vertically(vec![Constraint::Length(1), Constraint::Length(2), Constraint::Length(3)], area),
        vec![Rect::new(2, 3, 10, 1), Rect::new(2, 4, 10, 2), Rect::new(2, 6, 10, 3)]
    );
    assert_eq!(stack_vertically(vec![], area), vec![]);
    assert_eq!(stack_vertically(vec![Constraint::Fill(0)], area), vec![area]);
}

#[test]
fn stacked_areas_stay_within_the_area_and_follow_each_other() {
    let area = Rect::new(1, 2, 7, 5);
    let areas = stack_vertically(
        vec![Constraint::Length(4), Constraint::Min(3), Constraint::Percentage(80), Constraint::Fill(2)],
        area,
    );
    assert_eq!(areas.len(), 4);
    let mut top = area.y;
    for placed in areas {
        assert_eq!((placed.x, placed.width), (area.x, area.width));
        assert!(top <= placed.y);
        top = placed.y + placed.height;
    }
    assert!(top <= area.y + area.height);
}
