//! Decision logic of an IRC bot that follows a motorsport calendar: which
//! session comes next, when a finished session's results are delivered, and
//! how chat commands are answered.
pub mod calendar;
pub mod clock;
pub mod database;
pub mod event_results;
pub mod fetch;
pub mod irc;
pub mod message;
pub mod models;
pub mod next_event;
pub mod text;
pub mod worker;
