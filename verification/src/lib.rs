//! The logic of a notebook editor for the terminal.

pub mod app;
pub mod assist;
pub mod bindings;
pub mod cell_keys;
pub mod cellops;
pub mod commands;
pub mod completion;
pub mod config;
pub mod draw;
pub mod edit_keys;
pub mod editing;
pub mod editor;
pub mod edits;
pub mod events;
pub mod files;
pub mod formulas;
pub mod highlight;
pub mod ids;
pub mod input;
pub mod json;
pub mod kernel;
pub mod kernel_events;
pub mod keys;
pub mod latex;
pub mod launching;
pub mod layout;
pub mod log;
pub mod markdown;
pub mod naming;
pub mod notebook;
pub mod nvim;
pub mod nvim_keys;
pub mod nvim_talk;
pub mod output;
pub mod paths;
pub mod pictures;
pub mod pointer;
pub mod pointing;
pub mod popup_keys;
pub mod popups;
pub mod rendering;
pub mod report;
pub mod rpc;
pub mod run_keys;
pub mod runs;
pub mod screen;
pub mod session_keys;
pub mod streams;
pub mod strings;
pub mod style;
pub mod text;
pub mod ui;
pub mod undo_keys;
pub mod vi;
pub mod viewing;
pub mod wrap;
pub mod wrapping;
