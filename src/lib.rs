//! Conversion of a recorded build-event stream into a trace timeline.

pub mod commands;
pub mod convert;
pub mod counters;
pub mod directory;
pub mod error;
pub mod event;
pub mod first_pass;
pub mod track;
pub mod writer;
