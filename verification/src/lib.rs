//! A kanban board: columns of todo cards, a recycle bin, and the
//! keyboard-driven terminal interface that edits them.

pub mod calendar;
pub mod db;
pub mod models;
pub mod text;
pub mod app;
pub mod paths;
pub mod display;
pub mod screen;
pub mod layout;
pub mod laws;
pub mod key_laws;
