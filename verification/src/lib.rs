//! A focus timer that alternates work and break intervals, records each
//! completed interval, and summarises the recorded history by day, by month
//! and as an activity heatmap.

pub mod app;
pub mod ascii_art;
pub mod calendar;
pub mod db;
pub mod heatmap;
pub mod keys;
pub mod stats;
pub mod text;
pub mod ui;
