//! Verified core of a terminal speed reader: command-line dispatch, the
//! configuration file format, word and page arithmetic, the layout of the
//! scrolling reader view and the navigation of both reading modes.
pub mod cli;
pub mod config;
pub mod decimal;
pub mod paging;
pub mod rsvp;
pub mod session;
pub mod text;
pub mod viewer;
