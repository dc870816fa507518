//! The dashboard runtime: widgets that share one terminal surface, the stack
//! that routes events to them and layers their drawing, and the state machine
//! that lends the terminal to one raw passthrough at a time.
//!
//! - `events`: what travels through the widget tree.
//! - `widget`: the capability of a widget, the view that stacks widgets, the
//!   layering of a view, and the widgets that are made of views.
//! - `dashboard`: who has the terminal, and what the render loop decides.
//! - `cli`: what the dashboard on the operator's own terminal decides.
//! - `trusted`: what is taken on trust from other crates.
//!
//! Waiting for input, writing to a terminal and watching a cluster are not
//! done here. Whoever does them calls this library for every decision in
//! between.

pub mod cli;
pub mod dashboard;
pub mod events;
pub mod trusted;
pub mod widget;
