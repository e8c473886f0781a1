//! The logic of a terminal front end for C++ builds: it reads compiler output
//! line by line, gathers the diagnostics with their context, and decides what
//! the screen shows and what each key does.
//!
//! The modules build on each other in the order in which they stand here. What
//! is taken on trust is in `text` (three functions of the standard library), in
//! `matcher` (the regular expressions) and in `layout` (how a column is split);
//! all else is proved.

pub mod text;
pub mod diagnostic;
pub mod ansi;
pub mod grammar;
pub mod matcher;
pub mod lines;
pub mod parser;
pub mod runner;
pub mod streams;
pub mod layout;
pub mod app;
pub mod render;
