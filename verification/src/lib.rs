//! The core of a terminal browser over stored conversation records:
//! projects, their chat sessions, and the messages of a chat session.
//!
//! The browser itself reads keys and files and draws screens. What it shows
//! and how it reacts is decided here:
//!
//! - [`list`] holds a filterable list with one selection and a scrolling
//!   viewport, and [`list_view`] its model and what holds of it.
//! - [`hierarchy`] turns the messages of a chat session into a thread
//!   hierarchy; [`hierarchy_laws`], [`thread_laws`] and [`order_laws`] say
//!   which messages it lists and in which order.
//! - [`app`] holds the state of the browser and [`app_view`] its model;
//!   [`events`] says what each key does.
//! - [`project`] holds the records, [`discovery`] orders them as they were
//!   found, and [`content`], [`details`] and [`ui`] give the texts that are
//!   shown. [`json`] and [`text`] hold what is needed of JSON documents and
//!   texts.

pub mod app;
pub mod app_view;
pub mod content;
pub mod details;
pub mod discovery;
pub mod events;
pub mod hierarchy;
pub mod hierarchy_laws;
pub mod json;
pub mod list;
pub mod list_view;
pub mod order_laws;
pub mod project;
pub mod text;
pub mod thread_laws;
pub mod ui;
